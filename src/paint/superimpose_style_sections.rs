use crate::style::{applied, Style, StyleModifier};
use crate::text::push_char;
use vstd::prelude::*;
use vstd::string::StrSliceExecFns;

verus! {

/// One pair for each character of `text`, each carrying `style`.
pub open spec fn tagged<T>(style: T, text: Seq<char>) -> Seq<(T, char)> {
    Seq::new(text.len(), |i: int| (style, text[i]))
}

/// The per-character form of a span sequence, in order.
pub open spec fn exploded<T>(spans: Seq<(T, Seq<char>)>) -> Seq<(T, char)>
    decreases spans.len(),
{
    if spans.len() == 0 {
        Seq::empty()
    } else {
        exploded(spans.drop_last()) + tagged(spans.last().0, spans.last().1)
    }
}

/// The concatenated text of a span sequence.
pub open spec fn text_of<T>(spans: Seq<(T, Seq<char>)>) -> Seq<char>
    decreases spans.len(),
{
    if spans.len() == 0 {
        Seq::empty()
    } else {
        text_of(spans.drop_last()) + spans.last().1
    }
}

/// The characters of a per-character sequence.
pub open spec fn chars_of<T>(e: Seq<(T, char)>) -> Seq<char> {
    Seq::new(e.len(), |i: int| e[i].1)
}

/// A span sequence with each text as a sequence of characters.
pub open spec fn spans_view<T>(v: Seq<(T, String)>) -> Seq<(T, Seq<char>)> {
    Seq::new(v.len(), |i: int| (v[i].0, v[i].1@))
}

/// Position by position, the modifier of `modifiers` applied on top of the
/// style of `styles`, with the character of `styles`.
pub open spec fn merged(styles: Seq<(Style, char)>, modifiers: Seq<(StyleModifier, char)>) -> Seq<
    (Style, char),
> {
    Seq::new(styles.len(), |i: int| (applied(styles[i].0, modifiers[i].0), styles[i].1))
}

/// The run-length encoding of a per-character sequence: each maximal run of
/// characters with one style becomes one span.
pub open spec fn coalesced(e: Seq<(Style, char)>) -> Seq<(Style, Seq<char>)>
    decreases e.len(),
{
    if e.len() == 0 {
        Seq::empty()
    } else {
        let r = coalesced(e.drop_last());
        let st = e.last().0;
        let c = e.last().1;
        if r.len() > 0 && r.last().0 == st {
            r.update(r.len() - 1, (st, r.last().1.push(c)))
        } else {
            r.push((st, seq![c]))
        }
    }
}

/// No span is empty and no two adjacent spans have the same style.
pub open spec fn is_minimal(spans: Seq<(Style, Seq<char>)>) -> bool {
    &&& forall|i: int| 0 <= i < spans.len() ==> #[trigger] spans[i].1.len() > 0
    &&& forall|i: int| 0 < i < spans.len() ==> spans[i - 1].0 != #[trigger] spans[i].0
}

/// What merging two span sequences over the same text yields.
pub open spec fn superimposed_sections(
    sections_1: Seq<(Style, Seq<char>)>,
    sections_2: Seq<(StyleModifier, Seq<char>)>,
) -> Seq<(Style, Seq<char>)> {
    coalesced(merged(exploded(sections_1), exploded(sections_2)))
}

/// The characters of the exploded form are the text.
pub proof fn lemma_exploded_chars<T>(spans: Seq<(T, Seq<char>)>)
    ensures
        chars_of(exploded(spans)) == text_of(spans),
        exploded(spans).len() == text_of(spans).len(),
    decreases spans.len(),
{
    if spans.len() > 0 {
        lemma_exploded_chars(spans.drop_last());
        assert(chars_of(exploded(spans)) =~= text_of(spans));
    }
}

/// Exploding the run-length encoding gives back the per-character sequence.
pub proof fn lemma_coalesced_exploded(e: Seq<(Style, char)>)
    ensures
        exploded(coalesced(e)) == e,
    decreases e.len(),
{
    if e.len() > 0 {
        let e1 = e.drop_last();
        lemma_coalesced_exploded(e1);
        let r = coalesced(e1);
        let st = e.last().0;
        let c = e.last().1;
        if r.len() > 0 && r.last().0 == st {
            let u = r.update(r.len() - 1, (st, r.last().1.push(c)));
            assert(u.drop_last() =~= r.drop_last());
            assert(tagged(st, r.last().1.push(c)) =~= tagged(st, r.last().1).push((st, c)));
            assert(exploded(u) =~= exploded(r).push((st, c)));
        } else {
            let u = r.push((st, seq![c]));
            assert(u.drop_last() =~= r);
            assert(exploded(u) =~= exploded(r).push((st, c)));
        }
        assert(e1.push(e.last()) =~= e);
    }
}

/// The run-length encoding is minimal.
pub proof fn lemma_coalesced_minimal(e: Seq<(Style, char)>)
    ensures
        is_minimal(coalesced(e)),
        e.len() > 0 ==> coalesced(e).len() > 0 && coalesced(e).last().0 == e.last().0,
    decreases e.len(),
{
    if e.len() > 0 {
        lemma_coalesced_minimal(e.drop_last());
    }
}

/// Concatenating the text of an exploded-then-coalesced span sequence gives
/// back the text of the original sequence.
pub proof fn lemma_round_trip(spans: Seq<(Style, Seq<char>)>)
    ensures
        text_of(coalesced(exploded(spans))) == text_of(spans),
{
    let e = exploded(spans);
    lemma_coalesced_exploded(e);
    lemma_exploded_chars(coalesced(e));
    lemma_exploded_chars(spans);
}

/// Appending a run of one style to a sequence whose encoding does not end in
/// that style appends one span.
proof fn lemma_coalesced_append_run(x: Seq<(Style, char)>, st: Style, t: Seq<char>)
    requires
        t.len() > 0,
        coalesced(x).len() == 0 || coalesced(x).last().0 != st,
    ensures
        coalesced(x + tagged(st, t)) == coalesced(x).push((st, t)),
    decreases t.len(),
{
    let y = x + tagged(st, t);
    if t.len() == 1 {
        assert(y.drop_last() =~= x);
        assert(seq![t[0]] =~= t);
    } else {
        let t1 = t.drop_last();
        lemma_coalesced_append_run(x, st, t1);
        assert(y.drop_last() =~= x + tagged(st, t1));
        assert(t1.push(t.last()) =~= t);
    }
}

/// Coalescing the exploded form of an already minimal span sequence gives it
/// back unchanged.
pub proof fn lemma_coalesce_idempotent(spans: Seq<(Style, Seq<char>)>)
    requires
        is_minimal(spans),
    ensures
        coalesced(exploded(spans)) == spans,
    decreases spans.len(),
{
    if spans.len() > 0 {
        let s1 = spans.drop_last();
        assert(is_minimal(s1)) by {
            assert forall|i: int| 0 < i < s1.len() implies s1[i - 1].0 != #[trigger] s1[i].0 by {
                assert(spans[i - 1].0 != spans[i].0);
            }
        }
        lemma_coalesce_idempotent(s1);
        let last = spans.last();
        assert(spans[spans.len() - 1].1.len() > 0);
        if s1.len() > 0 {
            assert(spans[s1.len() - 1].0 != spans[spans.len() - 1].0);
        }
        lemma_coalesced_append_run(exploded(s1), last.0, last.1);
        assert(s1.push(last) =~= spans);
    }
}

/// Merges syntax-highlighting spans with emphasis spans that describe the
/// same text, into the minimal span sequence of the resulting styles.
pub fn superimpose_style_sections(
    sections_1: Vec<(Style, String)>,
    sections_2: Vec<(StyleModifier, String)>,
) -> (r: Vec<(Style, String)>)
    requires
        text_of(spans_view(sections_1@)) == text_of(spans_view(sections_2@)),
    ensures
        spans_view(r@) == superimposed_sections(spans_view(sections_1@), spans_view(sections_2@)),
        text_of(spans_view(r@)) == text_of(spans_view(sections_1@)),
        is_minimal(spans_view(r@)),
{
    let ghost t1 = spans_view(sections_1@);
    let ghost t2 = spans_view(sections_2@);
    let exploded_1 = explode(sections_1);
    let exploded_2 = explode(sections_2);
    proof {
        lemma_exploded_chars(t1);
        lemma_exploded_chars(t2);
    }
    let mut pairs: Vec<((Style, char), (StyleModifier, char))> = Vec::new();
    let mut i: usize = 0;
    while i < exploded_1.len()
        invariant
            exploded_1@ == exploded(t1),
            exploded_2@ == exploded(t2),
            chars_of(exploded_1@) == chars_of(exploded_2@),
            exploded_1@.len() == exploded_2@.len(),
            i <= exploded_1@.len(),
            pairs@.len() == i,
            forall|j: int| 0 <= j < i ==> #[trigger] pairs@[j] == (exploded_1@[j], exploded_2@[j]),
        decreases exploded_1.len() - i,
    {
        pairs.push((exploded_1[i], exploded_2[i]));
        i += 1;
    }
    proof {
        assert forall|j: int| 0 <= j < pairs@.len() implies (#[trigger] pairs@[j]).0.1 == pairs@[j].1.1 by {
            assert(chars_of(exploded_1@)[j] == chars_of(exploded_2@)[j]);
        }
    }
    let superimposed_pairs = superimpose(pairs);
    assert(superimposed_pairs@ =~= merged(exploded(t1), exploded(t2)));
    let r = coalesce(superimposed_pairs);
    proof {
        let m = merged(exploded(t1), exploded(t2));
        lemma_coalesced_exploded(m);
        lemma_exploded_chars(coalesced(m));
        assert(chars_of(m) =~= chars_of(exploded(t1)));
        lemma_coalesced_minimal(m);
    }
    r
}

/// Expands a span sequence into one pair per character, in order.
pub fn explode<T: Copy>(style_sections: Vec<(T, String)>) -> (r: Vec<(T, char)>)
    ensures
        r@ == exploded(spans_view(style_sections@)),
{
    let ghost sv = spans_view(style_sections@);
    let mut out: Vec<(T, char)> = Vec::new();
    let mut i: usize = 0;
    while i < style_sections.len()
        invariant
            sv == spans_view(style_sections@),
            i <= style_sections@.len(),
            out@ == exploded(sv.subrange(0, i as int)),
        decreases style_sections.len() - i,
    {
        let style = style_sections[i].0;
        let s: &str = style_sections[i].1.as_str();
        let n = s.unicode_len();
        let mut j: usize = 0;
        while j < n
            invariant
                n == s@.len(),
                j <= n,
                out@ == exploded(sv.subrange(0, i as int)) + tagged(style, s@.subrange(0, j as int)),
            decreases n - j,
        {
            out.push((style, s.get_char(j)));
            j += 1;
            assert(out@ =~= exploded(sv.subrange(0, i as int)) + tagged(style, s@.subrange(0, j as int)));
        }
        proof {
            let next = sv.subrange(0, i + 1);
            assert(next.drop_last() =~= sv.subrange(0, i as int));
            assert(s@.subrange(0, n as int) =~= s@);
            assert(next.last() == sv[i as int]);
        }
        i += 1;
    }
    assert(sv.subrange(0, style_sections@.len() as int) =~= sv);
    out
}

/// Resolves each character's style: the modifier applied on top of the
/// base style. Both sides of each pair carry the same character.
pub fn superimpose(style_section_pairs: Vec<((Style, char), (StyleModifier, char))>) -> (r: Vec<
    (Style, char),
>)
    requires
        forall|i: int|
            0 <= i < style_section_pairs@.len() ==> (#[trigger] style_section_pairs@[i]).0.1
                == style_section_pairs@[i].1.1,
    ensures
        r@.len() == style_section_pairs@.len(),
        forall|i: int|
            0 <= i < r@.len() ==> #[trigger] r@[i] == (
            applied(style_section_pairs@[i].0.0, style_section_pairs@[i].1.0),
            style_section_pairs@[i].0.1,
        ),
{
    let mut out: Vec<(Style, char)> = Vec::new();
    let mut i: usize = 0;
    while i < style_section_pairs.len()
        invariant
            i <= style_section_pairs@.len(),
            out@.len() == i,
            forall|j: int|
                0 <= j < i ==> #[trigger] out@[j] == (
                applied(style_section_pairs@[j].0.0, style_section_pairs@[j].1.0),
                style_section_pairs@[j].0.1,
            ),
        decreases style_section_pairs.len() - i,
    {
        let ((style, c), (modifier, _)) = style_section_pairs[i];
        out.push((style.apply(modifier), c));
        i += 1;
    }
    out
}

/// Merges consecutive characters of equal style into one span each.
pub fn coalesce(style_sections: Vec<(Style, char)>) -> (r: Vec<(Style, String)>)
    ensures
        spans_view(r@) == coalesced(style_sections@),
        is_minimal(spans_view(r@)),
        exploded(spans_view(r@)) == style_sections@,
{
    proof {
        lemma_coalesced_minimal(style_sections@);
        lemma_coalesced_exploded(style_sections@);
    }
    let mut out: Vec<(Style, String)> = Vec::new();
    let n = style_sections.len();
    if n == 0 {
        assert(spans_view(out@) =~= coalesced(style_sections@));
        return out;
    }
    let mut current_style = style_sections[0].0;
    let mut current_string = String::new();
    push_char(&mut current_string, style_sections[0].1);
    proof {
        let e1 = style_sections@.subrange(0, 1);
        assert(e1.drop_last() =~= Seq::<(Style, char)>::empty());
        assert(current_string@ =~= seq![style_sections@[0].1]);
        assert(e1.last() == style_sections@[0]);
        assert(coalesced(e1.drop_last()) =~= Seq::<(Style, Seq<char>)>::empty());
        assert(spans_view(out@) =~= Seq::<(Style, Seq<char>)>::empty());
        assert(spans_view(out@).push((current_style, current_string@)) =~= coalesced(e1));
    }
    let mut i: usize = 1;
    while i < n
        invariant
            n == style_sections@.len(),
            1 <= i <= n,
            spans_view(out@).push((current_style, current_string@)) == coalesced(
                style_sections@.subrange(0, i as int),
            ),
        decreases n - i,
    {
        let (style, c) = style_sections[i];
        let ghost before = spans_view(out@).push((current_style, current_string@));
        proof {
            assert(style_sections@.subrange(0, i + 1).drop_last() =~= style_sections@.subrange(
                0,
                i as int,
            ));
        }
        if style != current_style {
            out.push((current_style, current_string));
            current_string = String::new();
            current_style = style;
            push_char(&mut current_string, c);
            assert(spans_view(out@) =~= before);
            assert(current_string@ =~= seq![c]);
        } else {
            push_char(&mut current_string, c);
            assert(spans_view(out@).push((current_style, current_string@)) =~= before.update(
                before.len() - 1,
                (style, before.last().1.push(c)),
            ));
        }
        i += 1;
    }
    out.push((current_style, current_string));
    assert(style_sections@.subrange(0, n as int) =~= style_sections@);
    assert(spans_view(out@) =~= coalesced(style_sections@));
    out
}

/// The first position at which the texts of the two span sequences differ,
/// or `None` where they are the same text.
pub fn first_mismatch(
    sections_1: &Vec<(Style, String)>,
    sections_2: &Vec<(StyleModifier, String)>,
) -> (r: Option<usize>)
    ensures
        r is None <==> text_of(spans_view(sections_1@)) == text_of(spans_view(sections_2@)),
        r matches Some(i) ==> i == crate::paint::common_prefix(
            text_of(spans_view(sections_1@)),
            text_of(spans_view(sections_2@)),
        ),
{
    let a = text(sections_1);
    let b = text(sections_2);
    let i = crate::paint::StringPair::common_prefix_length(a.as_slice(), b.as_slice());
    proof {
        crate::paint::lemma_common_prefix_length(a@, b@);
    }
    if i == a.len() && i == b.len() {
        assert(a@ =~= b@);
        None
    } else {
        Some(i)
    }
}

/// The concatenated text of a span sequence.
pub fn text<T>(sections: &Vec<(T, String)>) -> (r: Vec<char>)
    ensures
        r@ == text_of(spans_view(sections@)),
{
    let ghost sv = spans_view(sections@);
    let mut out: Vec<char> = Vec::new();
    let mut i: usize = 0;
    while i < sections.len()
        invariant
            sv == spans_view(sections@),
            i <= sections@.len(),
            out@ == text_of(sv.subrange(0, i as int)),
        decreases sections.len() - i,
    {
        let s: &str = sections[i].1.as_str();
        let n = s.unicode_len();
        let mut j: usize = 0;
        while j < n
            invariant
                n == s@.len(),
                j <= n,
                out@ == text_of(sv.subrange(0, i as int)) + s@.subrange(0, j as int),
            decreases n - j,
        {
            out.push(s.get_char(j));
            j += 1;
            assert(out@ =~= text_of(sv.subrange(0, i as int)) + s@.subrange(0, j as int));
        }
        proof {
            let next = sv.subrange(0, i + 1);
            assert(next.drop_last() =~= sv.subrange(0, i as int));
            assert(s@.subrange(0, n as int) =~= s@);
        }
        i += 1;
    }
    assert(sv.subrange(0, sections@.len() as int) =~= sv);
    out
}

} // verus!
