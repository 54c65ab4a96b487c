pub mod superimpose_style_sections;

use crate::paint::superimpose_style_sections::{spans_view, text_of};
use crate::style::{Color, Style, StyleModifier};
use crate::text::push_char;
use vstd::prelude::*;
use vstd::string::{StrSliceExecFns, StringExecFns};

verus! {

/// Length of the longest common prefix of `a` and `b`.
pub open spec fn common_prefix(a: Seq<char>, b: Seq<char>) -> nat
    decreases a.len(),
{
    if a.len() == 0 || b.len() == 0 || a[0] != b[0] {
        0
    } else {
        1 + common_prefix(a.drop_first(), b.drop_first())
    }
}

/// Length of the longest common suffix of `a` and `b`.
pub open spec fn common_suffix(a: Seq<char>, b: Seq<char>) -> nat
    decreases a.len(),
{
    if a.len() == 0 || b.len() == 0 || a.last() != b.last() {
        0
    } else {
        1 + common_suffix(a.drop_last(), b.drop_last())
    }
}

/// `s` without its trailing space characters.
pub open spec fn trim_end_spaces(s: Seq<char>) -> Seq<char>
    decreases s.len(),
{
    if s.len() > 0 && s.last() == ' ' {
        trim_end_spaces(s.drop_last())
    } else {
        s
    }
}

/// Length of the longest common suffix of `a` and `b` once both have lost
/// their trailing spaces.
pub open spec fn common_trimmed_suffix(a: Seq<char>, b: Seq<char>) -> nat {
    common_suffix(trim_end_spaces(a), trim_end_spaces(b))
}

/// The character of `s` at position `k` counted from the end.
pub open spec fn from_end(s: Seq<char>, k: int) -> char {
    s[s.len() - 1 - k]
}

/// Every character of `s` is a space.
pub open spec fn all_spaces(s: Seq<char>) -> bool {
    forall|i: int| 0 <= i < s.len() ==> s[i] == ' '
}

/// The common prefix length is at most either length, the characters before
/// it agree, and at it the two strings differ unless one of them ends there.
pub proof fn lemma_common_prefix_length(a: Seq<char>, b: Seq<char>)
    ensures
        common_prefix(a, b) <= a.len(),
        common_prefix(a, b) <= b.len(),
        forall|i: int| 0 <= i < common_prefix(a, b) ==> a[i] == b[i],
        common_prefix(a, b) < a.len() && common_prefix(a, b) < b.len() ==> a[common_prefix(a, b) as int]
            != b[common_prefix(a, b) as int],
    decreases a.len(),
{
    if a.len() == 0 || b.len() == 0 || a[0] != b[0] {
    } else {
        lemma_common_prefix_length(a.drop_first(), b.drop_first());
        assert forall|i: int| 0 <= i < common_prefix(a, b) implies a[i] == b[i] by {
            if i > 0 {
                assert(a.drop_first()[i - 1] == a[i]);
                assert(b.drop_first()[i - 1] == b[i]);
            }
        }
    }
}

/// The common prefix length is the first index at which the two strings
/// differ, or the shorter length where one is a prefix of the other.
pub proof fn lemma_common_prefix_length_unique(a: Seq<char>, b: Seq<char>, n: nat)
    requires
        n <= a.len(),
        n <= b.len(),
        forall|i: int| 0 <= i < n ==> a[i] == b[i],
        n < a.len() && n < b.len() ==> a[n as int] != b[n as int],
    ensures
        common_prefix(a, b) == n,
    decreases a.len(),
{
    if n > 0 {
        assert(a[0] == b[0]);
        let n1 = (n - 1) as nat;
        assert forall|i: int| 0 <= i < n1 implies a.drop_first()[i] == b.drop_first()[i] by {
            assert(a[i + 1] == b[i + 1]);
        }
        lemma_common_prefix_length_unique(a.drop_first(), b.drop_first(), n1);
    }
}

/// The common suffix length is the number of positions, counted from the
/// end, at which the two strings agree before they first differ.
pub proof fn lemma_common_suffix_length_unique(a: Seq<char>, b: Seq<char>, n: nat)
    requires
        n <= a.len(),
        n <= b.len(),
        forall|k: int| 0 <= k < n ==> from_end(a, k) == from_end(b, k),
        n < a.len() && n < b.len() ==> from_end(a, n as int) != from_end(b, n as int),
    ensures
        common_suffix(a, b) == n,
    decreases a.len(),
{
    if n > 0 {
        assert(from_end(a, 0) == from_end(b, 0));
        let n1 = (n - 1) as nat;
        let a1 = a.drop_last();
        let b1 = b.drop_last();
        assert forall|k: int| 0 <= k < n1 implies from_end(a1, k) == from_end(b1, k) by {
            assert(from_end(a, k + 1) == from_end(b, k + 1));
        }
        lemma_common_suffix_length_unique(a1, b1, n1);
    }
}

/// Where the last `n` characters of `s` are spaces and the one before them is
/// not, trimming leaves the first `len - n` characters.
proof fn lemma_trim_end_spaces(s: Seq<char>, n: nat)
    requires
        n <= s.len(),
        forall|k: int| 0 <= k < n ==> from_end(s, k) == ' ',
        n < s.len() ==> from_end(s, n as int) != ' ',
    ensures
        trim_end_spaces(s) == s.subrange(0, s.len() - n),
    decreases s.len(),
{
    if n == 0 {
        assert(s.subrange(0, s.len() as int) =~= s);
    } else {
        let s1 = s.drop_last();
        assert(from_end(s, 0) == ' ');
        assert forall|k: int| 0 <= k < n - 1 implies from_end(s1, k) == ' ' by {
            assert(from_end(s, k + 1) == ' ');
        }
        lemma_trim_end_spaces(s1, (n - 1) as nat);
        assert(s1.subrange(0, s1.len() - (n - 1)) =~= s.subrange(0, s.len() - n));
    }
}

/// Appending spaces to a string does not change what trimming leaves.
pub proof fn lemma_trim_end_spaces_absorbs(s: Seq<char>, spaces: Seq<char>)
    requires
        all_spaces(spaces),
    ensures
        trim_end_spaces(s + spaces) == trim_end_spaces(s),
    decreases spaces.len(),
{
    if spaces.len() == 0 {
        assert(s + spaces =~= s);
    } else {
        let rest = spaces.drop_last();
        assert((s + spaces).drop_last() =~= s + rest);
        assert((s + spaces).last() == spaces.last());
        assert(spaces.last() == spaces[spaces.len() - 1]);
        lemma_trim_end_spaces_absorbs(s, rest);
    }
}

/// The common suffix length ignores trailing spaces entirely: padding either
/// string with spaces leaves it unchanged.
pub proof fn lemma_trailing_spaces_ignored(
    a: Seq<char>,
    b: Seq<char>,
    a_spaces: Seq<char>,
    b_spaces: Seq<char>,
)
    requires
        all_spaces(a_spaces),
        all_spaces(b_spaces),
    ensures
        common_trimmed_suffix(a + a_spaces, b + b_spaces) == common_trimmed_suffix(a, b),
{
    lemma_trim_end_spaces_absorbs(a, a_spaces);
    lemma_trim_end_spaces_absorbs(b, b_spaces);
}

/// Trimming keeps a prefix of the string.
pub proof fn lemma_trim_end_spaces_is_prefix(s: Seq<char>)
    ensures
        trim_end_spaces(s).len() <= s.len(),
        trim_end_spaces(s) == s.subrange(0, trim_end_spaces(s).len() as int),
    decreases s.len(),
{
    if s.len() > 0 && s.last() == ' ' {
        lemma_trim_end_spaces_is_prefix(s.drop_last());
        assert(s.drop_last().subrange(0, trim_end_spaces(s).len() as int) =~= s.subrange(
            0,
            trim_end_spaces(s).len() as int,
        ));
    } else {
        assert(s.subrange(0, s.len() as int) =~= s);
    }
}

/// The common suffix length is at most either length.
pub proof fn lemma_common_suffix_bounded(a: Seq<char>, b: Seq<char>)
    ensures
        common_suffix(a, b) <= a.len(),
        common_suffix(a, b) <= b.len(),
    decreases a.len(),
{
    if a.len() == 0 || b.len() == 0 || a.last() != b.last() {
    } else {
        lemma_common_suffix_bounded(a.drop_last(), b.drop_last());
    }
}

/// The characters of `s`, in order.
pub fn chars_of(s: &str) -> (v: Vec<char>)
    ensures
        v@ == s@,
{
    let n = s.unicode_len();
    let mut v: Vec<char> = Vec::new();
    let mut i: usize = 0;
    while i < n
        invariant
            n == s@.len(),
            i <= n,
            v@ == s@.subrange(0, i as int),
        decreases n - i,
    {
        v.push(s.get_char(i));
        i += 1;
        assert(v@ =~= s@.subrange(0, i as int));
    }
    assert(v@ =~= s@);
    v
}

/// The prefix and suffix that two lines share, and the length of each line
/// without its trailing spaces.
pub struct StringPair {
    pub common_prefix_length: usize,
    pub common_suffix_length: usize,
    pub lengths: [usize; 2],
}

impl StringPair {
    pub fn new(s0: &str, s1: &str) -> (r: StringPair)
        ensures
            r.common_prefix_length == common_prefix(s0@, s1@),
            r.common_suffix_length == common_trimmed_suffix(s0@, s1@),
            r.lengths@[0] == trim_end_spaces(s0@).len(),
            r.lengths@[1] == trim_end_spaces(s1@).len(),
    {
        let c0 = chars_of(s0);
        let c1 = chars_of(s1);
        let common_prefix_length = StringPair::common_prefix_length(c0.as_slice(), c1.as_slice());
        let (common_suffix_length, trailing_whitespace) = StringPair::suffix_data(
            c0.as_slice(),
            c1.as_slice(),
        );
        StringPair {
            common_prefix_length,
            common_suffix_length,
            lengths: [c0.len() - trailing_whitespace[0], c1.len() - trailing_whitespace[1]],
        }
    }

    /// Length of the longest common prefix of `s0` and `s1`.
    pub fn common_prefix_length(s0: &[char], s1: &[char]) -> (r: usize)
        ensures
            r == common_prefix(s0@, s1@),
    {
        let mut i: usize = 0;
        while i < s0.len() && i < s1.len() && s0[i] == s1[i]
            invariant
                i <= s0@.len(),
                i <= s1@.len(),
                forall|j: int| 0 <= j < i ==> s0@[j] == s1@[j],
            decreases s0.len() - i,
        {
            i += 1;
        }
        proof {
            lemma_common_prefix_length_unique(s0@, s1@, i as nat);
        }
        i
    }

    /// The common suffix length of `s0` and `s1` once both are trimmed of
    /// trailing spaces, and the number of trailing spaces of each.
    pub fn suffix_data(s0: &[char], s1: &[char]) -> (r: (usize, [usize; 2]))
        ensures
            r.0 == common_trimmed_suffix(s0@, s1@),
            r.1@[0] + trim_end_spaces(s0@).len() == s0@.len(),
            r.1@[1] + trim_end_spaces(s1@).len() == s1@.len(),
    {
        let n0 = StringPair::consume_whitespace(s0);
        let n1 = StringPair::consume_whitespace(s1);
        let l0 = s0.len() - n0;
        let l1 = s1.len() - n1;
        let ghost t0 = trim_end_spaces(s0@);
        let ghost t1 = trim_end_spaces(s1@);
        let mut k: usize = 0;
        while k < l0 && k < l1 && s0[l0 - 1 - k] == s1[l1 - 1 - k]
            invariant
                l0 == t0.len(),
                l1 == t1.len(),
                l0 <= s0@.len(),
                l1 <= s1@.len(),
                t0 == s0@.subrange(0, l0 as int),
                t1 == s1@.subrange(0, l1 as int),
                k <= l0,
                k <= l1,
                forall|j: int| 0 <= j < k ==> from_end(t0, j) == from_end(t1, j),
            decreases l0 - k,
        {
            k += 1;
        }
        proof {
            lemma_common_suffix_length_unique(t0, t1, k as nat);
        }
        (k, [n0, n1])
    }

    /// The number of space characters at the end of `s`.
    pub fn consume_whitespace(s: &[char]) -> (r: usize)
        ensures
            r <= s@.len(),
            trim_end_spaces(s@) == s@.subrange(0, s@.len() - r),
    {
        let n = s.len();
        let mut i: usize = 0;
        while i < n && s[n - 1 - i] == ' '
            invariant
                n == s@.len(),
                i <= n,
                forall|k: int| 0 <= k < i ==> from_end(s@, k) == ' ',
            decreases n - i,
        {
            i += 1;
        }
        proof {
            lemma_trim_end_spaces(s@, i as nat);
        }
        i
    }
}

/// Where the changed part of a line ends, given the line, the common prefix
/// length and the common suffix length of the pair: never before the prefix,
/// and never inside the prefix where the prefix runs into trailing spaces.
pub open spec fn change_end(line: Seq<char>, prefix: nat, suffix: nat) -> nat {
    let trimmed = trim_end_spaces(line).len();
    let effective = if trimmed >= prefix {
        trimmed
    } else {
        prefix
    };
    if effective - suffix >= prefix {
        (effective - suffix) as nat
    } else {
        prefix
    }
}

/// For every pair of lines the changed range of each is well formed and lies
/// within the line.
pub proof fn lemma_change_range_well_formed(minus: Seq<char>, plus: Seq<char>)
    ensures
        common_prefix(minus, plus) <= change_end(
            minus,
            common_prefix(minus, plus),
            common_trimmed_suffix(minus, plus),
        ) <= minus.len(),
        common_prefix(minus, plus) <= change_end(
            plus,
            common_prefix(minus, plus),
            common_trimmed_suffix(minus, plus),
        ) <= plus.len(),
{
    lemma_common_prefix_length(minus, plus);
    lemma_trim_end_spaces_is_prefix(minus);
    lemma_trim_end_spaces_is_prefix(plus);
    lemma_common_suffix_bounded(trim_end_spaces(minus), trim_end_spaces(plus));
}

/// The start of the changed range of a pair of lines, and its end in the
/// removed line and in the added line.
pub fn change_range(minus: &str, plus: &str) -> (r: (usize, usize, usize))
    ensures
        r.0 == common_prefix(minus@, plus@),
        r.1 == change_end(minus@, r.0 as nat, common_trimmed_suffix(minus@, plus@)),
        r.2 == change_end(plus@, r.0 as nat, common_trimmed_suffix(minus@, plus@)),
        r.0 <= r.1 <= minus@.len(),
        r.0 <= r.2 <= plus@.len(),
{
    let string_pair = StringPair::new(minus, plus);
    proof {
        lemma_change_range_well_formed(minus@, plus@);
        lemma_trim_end_spaces_is_prefix(minus@);
        lemma_trim_end_spaces_is_prefix(plus@);
        lemma_common_suffix_bounded(trim_end_spaces(minus@), trim_end_spaces(plus@));
    }
    let change_begin = string_pair.common_prefix_length;
    let minus_length = if string_pair.lengths[0] >= change_begin {
        string_pair.lengths[0]
    } else {
        change_begin
    };
    let plus_length = if string_pair.lengths[1] >= change_begin {
        string_pair.lengths[1]
    } else {
        change_begin
    };
    let minus_end = if minus_length - string_pair.common_suffix_length >= change_begin {
        minus_length - string_pair.common_suffix_length
    } else {
        change_begin
    };
    let plus_end = if plus_length - string_pair.common_suffix_length >= change_begin {
        plus_length - string_pair.common_suffix_length
    } else {
        change_begin
    };
    (change_begin, minus_end, plus_end)
}

/// How a buffered region of removed and added lines is styled.
#[derive(Clone, Copy, Debug, PartialEq, Eq, Structural)]
pub enum RegionMode {
    /// Each line is one span in the line's base style.
    Plain,
    /// Line `i` of the removed lines pairs with line `i` of the added lines,
    /// and the changed part of each gets the emphasis style.
    Paired,
}

/// Regions whose counts of removed and added lines agree are paired; all
/// others are plain.
pub fn region_mode(n_minus: usize, n_plus: usize) -> (r: RegionMode)
    ensures
        r == (if n_minus == n_plus {
            RegionMode::Paired
        } else {
            RegionMode::Plain
        }),
{
    if n_minus == n_plus {
        RegionMode::Paired
    } else {
        RegionMode::Plain
    }
}

/// The modifiers given to removed and added lines: a base one for each, and
/// a stronger one for the changed part.
#[derive(Clone, Copy, Debug, PartialEq, Eq, Structural)]
pub struct BackgroundStyles {
    pub minus_style_modifier: StyleModifier,
    pub minus_emph_style_modifier: StyleModifier,
    pub plus_style_modifier: StyleModifier,
    pub plus_emph_style_modifier: StyleModifier,
}

/// The three spans of a line: before `begin` and from `end` on in the base
/// modifier, between them in the emphasis modifier.
pub open spec fn three_sections(
    line: Seq<char>,
    begin: int,
    end: int,
    base: StyleModifier,
    emph: StyleModifier,
) -> Seq<(StyleModifier, Seq<char>)> {
    seq![
        (base, line.subrange(0, begin)),
        (emph, line.subrange(begin, end)),
        (base, line.subrange(end, line.len() as int)),
    ]
}

/// The spans of the removed line of a pair.
pub open spec fn paired_minus_sections(
    minus: Seq<char>,
    plus: Seq<char>,
    styles: BackgroundStyles,
) -> Seq<(StyleModifier, Seq<char>)> {
    let begin = common_prefix(minus, plus);
    three_sections(
        minus,
        begin as int,
        change_end(minus, begin, common_trimmed_suffix(minus, plus)) as int,
        styles.minus_style_modifier,
        styles.minus_emph_style_modifier,
    )
}

/// The spans of the added line of a pair.
pub open spec fn paired_plus_sections(
    minus: Seq<char>,
    plus: Seq<char>,
    styles: BackgroundStyles,
) -> Seq<(StyleModifier, Seq<char>)> {
    let begin = common_prefix(minus, plus);
    three_sections(
        plus,
        begin as int,
        change_end(plus, begin, common_trimmed_suffix(minus, plus)) as int,
        styles.plus_style_modifier,
        styles.plus_emph_style_modifier,
    )
}

/// Splits `line` into its three spans.
fn line_sections(
    line: &str,
    begin: usize,
    end: usize,
    base: StyleModifier,
    emph: StyleModifier,
) -> (r: Vec<(StyleModifier, String)>)
    requires
        begin <= end <= line@.len(),
    ensures
        spans_view(r@) == three_sections(line@, begin as int, end as int, base, emph),
        text_of(spans_view(r@)) == line@,
{
    let n = line.unicode_len();
    let mut r: Vec<(StyleModifier, String)> = Vec::new();
    r.push((base, String::from_str(line.substring_char(0, begin))));
    r.push((emph, String::from_str(line.substring_char(begin, end))));
    r.push((base, String::from_str(line.substring_char(end, n))));
    proof {
        assert(spans_view(r@) =~= three_sections(line@, begin as int, end as int, base, emph));
        lemma_three_sections_text(line@, begin as int, end as int, base, emph);
    }
    r
}

/// The spans of each line of a region styled line by line in one modifier.
pub fn background_style_sections_plain(lines: &Vec<String>, modifier: StyleModifier) -> (r: Vec<
    Vec<(StyleModifier, String)>,
>)
    ensures
        r@.len() == lines@.len(),
        forall|i: int|
            0 <= i < lines@.len() ==> spans_view(#[trigger] r@[i]@) == seq![(modifier, lines@[i]@)],
{
    let mut r: Vec<Vec<(StyleModifier, String)>> = Vec::new();
    let mut i: usize = 0;
    while i < lines.len()
        invariant
            i <= lines@.len(),
            r@.len() == i,
            forall|j: int|
                0 <= j < i ==> spans_view(#[trigger] r@[j]@) == seq![(modifier, lines@[j]@)],
        decreases lines.len() - i,
    {
        let mut sections: Vec<(StyleModifier, String)> = Vec::new();
        sections.push((modifier, String::from_str(lines[i].as_str())));
        assert(spans_view(sections@) =~= seq![(modifier, lines@[i as int]@)]);
        r.push(sections);
        i += 1;
    }
    r
}

/// The spans of each removed line and each added line of a paired region.
pub fn background_style_sections_diff_detail(
    minus_lines: &Vec<String>,
    plus_lines: &Vec<String>,
    styles: &BackgroundStyles,
) -> (r: (Vec<Vec<(StyleModifier, String)>>, Vec<Vec<(StyleModifier, String)>>))
    requires
        minus_lines@.len() == plus_lines@.len(),
    ensures
        r.0@.len() == minus_lines@.len(),
        r.1@.len() == plus_lines@.len(),
        forall|i: int|
            0 <= i < minus_lines@.len() ==> spans_view(#[trigger] r.0@[i]@) == paired_minus_sections(
                minus_lines@[i]@,
                plus_lines@[i]@,
                *styles,
            ),
        forall|i: int|
            0 <= i < plus_lines@.len() ==> spans_view(#[trigger] r.1@[i]@) == paired_plus_sections(
                minus_lines@[i]@,
                plus_lines@[i]@,
                *styles,
            ),
{
    let mut minus_sections: Vec<Vec<(StyleModifier, String)>> = Vec::new();
    let mut plus_sections: Vec<Vec<(StyleModifier, String)>> = Vec::new();
    let mut i: usize = 0;
    while i < minus_lines.len()
        invariant
            minus_lines@.len() == plus_lines@.len(),
            i <= minus_lines@.len(),
            minus_sections@.len() == i,
            plus_sections@.len() == i,
            forall|j: int|
                0 <= j < i ==> spans_view(#[trigger] minus_sections@[j]@) == paired_minus_sections(
                    minus_lines@[j]@,
                    plus_lines@[j]@,
                    *styles,
                ),
            forall|j: int|
                0 <= j < i ==> spans_view(#[trigger] plus_sections@[j]@) == paired_plus_sections(
                    minus_lines@[j]@,
                    plus_lines@[j]@,
                    *styles,
                ),
        decreases minus_lines.len() - i,
    {
        let minus = minus_lines[i].as_str();
        let plus = plus_lines[i].as_str();
        let (change_begin, minus_change_end, plus_change_end) = change_range(minus, plus);
        minus_sections.push(
            line_sections(
                minus,
                change_begin,
                minus_change_end,
                styles.minus_style_modifier,
                styles.minus_emph_style_modifier,
            ),
        );
        plus_sections.push(
            line_sections(
                plus,
                change_begin,
                plus_change_end,
                styles.plus_style_modifier,
                styles.plus_emph_style_modifier,
            ),
        );
        i += 1;
    }
    (minus_sections, plus_sections)
}

/// The spans of the removed lines and of the added lines of a region.
pub open spec fn region_sections(
    minus_lines: Seq<Seq<char>>,
    plus_lines: Seq<Seq<char>>,
    styles: BackgroundStyles,
) -> (Seq<Seq<(StyleModifier, Seq<char>)>>, Seq<Seq<(StyleModifier, Seq<char>)>>) {
    if minus_lines.len() == plus_lines.len() {
        (
            Seq::new(
                minus_lines.len(),
                |i: int| paired_minus_sections(minus_lines[i], plus_lines[i], styles),
            ),
            Seq::new(
                plus_lines.len(),
                |i: int| paired_plus_sections(minus_lines[i], plus_lines[i], styles),
            ),
        )
    } else {
        (
            Seq::new(minus_lines.len(), |i: int| seq![(styles.minus_style_modifier, minus_lines[i])]),
            Seq::new(plus_lines.len(), |i: int| seq![(styles.plus_style_modifier, plus_lines[i])]),
        )
    }
}

/// The three spans of a line together hold the line.
proof fn lemma_three_sections_text(
    line: Seq<char>,
    begin: int,
    end: int,
    base: StyleModifier,
    emph: StyleModifier,
)
    requires
        0 <= begin <= end <= line.len(),
    ensures
        text_of(three_sections(line, begin, end, base, emph)) == line,
{
    let sv = three_sections(line, begin, end, base, emph);
    let s1 = sv.drop_last();
    let s2 = s1.drop_last();
    assert(s2.drop_last() =~= Seq::<(StyleModifier, Seq<char>)>::empty());
    assert(s2.last() == sv[0]);
    assert(text_of(s2.drop_last()) =~= Seq::<char>::empty());
    assert(text_of(s2) =~= line.subrange(0, begin));
    assert(text_of(s1) =~= line.subrange(0, end));
    assert(text_of(sv) =~= line);
}

/// A single span holds its own text.
proof fn lemma_single_section_text(line: Seq<char>, modifier: StyleModifier)
    ensures
        text_of(seq![(modifier, line)]) == line,
{
    let sv = seq![(modifier, line)];
    assert(sv.drop_last() =~= Seq::<(StyleModifier, Seq<char>)>::empty());
    assert(text_of(sv.drop_last()) =~= Seq::<char>::empty());
    assert(text_of(sv) =~= line);
}

/// Every span list built for a region reconstructs its line exactly, and
/// each one of a paired region has three spans.
pub proof fn lemma_region_sections_lossless(
    minus_lines: Seq<Seq<char>>,
    plus_lines: Seq<Seq<char>>,
    styles: BackgroundStyles,
)
    ensures
        region_sections(minus_lines, plus_lines, styles).0.len() == minus_lines.len(),
        region_sections(minus_lines, plus_lines, styles).1.len() == plus_lines.len(),
        forall|i: int|
            0 <= i < minus_lines.len() ==> text_of(
                #[trigger] region_sections(minus_lines, plus_lines, styles).0[i],
            ) == minus_lines[i],
        forall|i: int|
            0 <= i < plus_lines.len() ==> text_of(
                #[trigger] region_sections(minus_lines, plus_lines, styles).1[i],
            ) == plus_lines[i],
{
    let r = region_sections(minus_lines, plus_lines, styles);
    assert forall|i: int| 0 <= i < minus_lines.len() implies text_of(#[trigger] r.0[i])
        == minus_lines[i] by {
        if minus_lines.len() == plus_lines.len() {
            let m = minus_lines[i];
            let p = plus_lines[i];
            lemma_change_range_well_formed(m, p);
            let b = common_prefix(m, p);
            lemma_three_sections_text(
                m,
                b as int,
                change_end(m, b, common_trimmed_suffix(m, p)) as int,
                styles.minus_style_modifier,
                styles.minus_emph_style_modifier,
            );
        } else {
            lemma_single_section_text(minus_lines[i], styles.minus_style_modifier);
        }
    }
    assert forall|i: int| 0 <= i < plus_lines.len() implies text_of(#[trigger] r.1[i])
        == plus_lines[i] by {
        if minus_lines.len() == plus_lines.len() {
            let m = minus_lines[i];
            let p = plus_lines[i];
            lemma_change_range_well_formed(m, p);
            let b = common_prefix(m, p);
            lemma_three_sections_text(
                p,
                b as int,
                change_end(p, b, common_trimmed_suffix(m, p)) as int,
                styles.plus_style_modifier,
                styles.plus_emph_style_modifier,
            );
        } else {
            lemma_single_section_text(plus_lines[i], styles.plus_style_modifier);
        }
    }
}

/// The lines of a buffer as sequences of characters.
pub open spec fn lines_view(lines: Seq<String>) -> Seq<Seq<char>> {
    Seq::new(lines.len(), |i: int| lines[i]@)
}

/// The span lists of a buffer, each as a sequence of spans.
pub open spec fn sections_list_view(v: Seq<Vec<(StyleModifier, String)>>) -> Seq<
    Seq<(StyleModifier, Seq<char>)>,
> {
    Seq::new(v.len(), |i: int| spans_view(v[i]@))
}

/// The spans of every removed and added line of a buffered region: paired
/// where the counts agree, plain otherwise.
pub fn background_style_sections(
    minus_lines: &Vec<String>,
    plus_lines: &Vec<String>,
    styles: &BackgroundStyles,
) -> (r: (Vec<Vec<(StyleModifier, String)>>, Vec<Vec<(StyleModifier, String)>>))
    ensures
        (sections_list_view(r.0@), sections_list_view(r.1@)) == region_sections(
            lines_view(minus_lines@),
            lines_view(plus_lines@),
            *styles,
        ),
{
    let mode = region_mode(minus_lines.len(), plus_lines.len());
    let r = match mode {
        RegionMode::Paired => background_style_sections_diff_detail(minus_lines, plus_lines, styles),
        RegionMode::Plain => (
            background_style_sections_plain(minus_lines, styles.minus_style_modifier),
            background_style_sections_plain(plus_lines, styles.plus_style_modifier),
        ),
    };
    let ghost expected = region_sections(lines_view(minus_lines@), lines_view(plus_lines@), *styles);
    assert(sections_list_view(r.0@) =~= expected.0);
    assert(sections_list_view(r.1@) =~= expected.1);
    r
}

/// The character of a decimal digit.
pub open spec fn digit_char(d: nat) -> char {
    if d == 0 {
        '0'
    } else if d == 1 {
        '1'
    } else if d == 2 {
        '2'
    } else if d == 3 {
        '3'
    } else if d == 4 {
        '4'
    } else if d == 5 {
        '5'
    } else if d == 6 {
        '6'
    } else if d == 7 {
        '7'
    } else if d == 8 {
        '8'
    } else {
        '9'
    }
}

/// The decimal notation of `n`, without leading zeros.
pub open spec fn decimal(n: nat) -> Seq<char>
    decreases n,
{
    if n < 10 {
        seq![digit_char(n)]
    } else {
        decimal(n / 10).push(digit_char(n % 10))
    }
}

/// The true-color escape that sets a channel (`'4'` background, `'3'`
/// foreground) to `c`.
pub open spec fn color_escape(channel: char, c: Color) -> Seq<char> {
    seq!['\u{1b}', '[', channel, '8', ';', '2', ';'] + decimal(c.r as nat) + seq![';'] + decimal(
        c.g as nat,
    ) + seq![';'] + decimal(c.b as nat) + seq!['m']
}

/// What is written for one span: the background escape unless the
/// background is the "no color" sentinel, the foreground escape likewise,
/// then the text.
pub open spec fn section_output(text: Seq<char>, style: Style) -> Seq<char> {
    (if style.background.is_no_color_spec() {
        Seq::empty()
    } else {
        color_escape('4', style.background)
    }) + (if style.foreground.is_no_color_spec() {
        Seq::empty()
    } else {
        color_escape('3', style.foreground)
    }) + text
}

/// What is written for a line: each span in order, then a line feed.
pub open spec fn line_output(sections: Seq<(Style, Seq<char>)>) -> Seq<char>
    decreases sections.len(),
{
    if sections.len() == 0 {
        seq!['\n']
    } else {
        let rest = sections.drop_first();
        section_output(sections[0].1, sections[0].0) + line_output(rest)
    }
}

fn digit(d: u8) -> (c: char)
    requires
        d < 10,
    ensures
        c == digit_char(d as nat),
{
    match d {
        0 => '0',
        1 => '1',
        2 => '2',
        3 => '3',
        4 => '4',
        5 => '5',
        6 => '6',
        7 => '7',
        8 => '8',
        _ => '9',
    }
}

fn push_decimal(output_buffer: &mut String, n: u8)
    ensures
        final(output_buffer)@ == old(output_buffer)@ + decimal(n as nat),
{
    let ghost start = output_buffer@;
    if n >= 100 {
        push_char(output_buffer, digit(n / 100));
        push_char(output_buffer, digit((n / 10) % 10));
        push_char(output_buffer, digit(n % 10));
        assert(decimal((n / 100) as nat) == seq![digit_char((n / 100) as nat)]);
        assert(decimal((n / 10) as nat) == decimal((n / 100) as nat).push(
            digit_char(((n / 10) % 10) as nat),
        ));
        assert(output_buffer@ =~= start + decimal(n as nat));
    } else if n >= 10 {
        push_char(output_buffer, digit(n / 10));
        push_char(output_buffer, digit(n % 10));
        assert(decimal((n / 10) as nat) == seq![digit_char((n / 10) as nat)]);
        assert(output_buffer@ =~= start + decimal(n as nat));
    } else {
        push_char(output_buffer, digit(n));
        assert(output_buffer@ =~= start + decimal(n as nat));
    }
}

fn push_color_escape(output_buffer: &mut String, channel: char, c: Color)
    ensures
        final(output_buffer)@ == old(output_buffer)@ + color_escape(channel, c),
{
    let ghost start = output_buffer@;
    push_char(output_buffer, '\u{1b}');
    push_char(output_buffer, '[');
    push_char(output_buffer, channel);
    push_char(output_buffer, '8');
    push_char(output_buffer, ';');
    push_char(output_buffer, '2');
    push_char(output_buffer, ';');
    push_decimal(output_buffer, c.r);
    push_char(output_buffer, ';');
    push_decimal(output_buffer, c.g);
    push_char(output_buffer, ';');
    push_decimal(output_buffer, c.b);
    push_char(output_buffer, 'm');
    assert(output_buffer@ =~= start + color_escape(channel, c));
}

/// Appends one span to the buffer with its color escapes.
pub fn paint_section(text: &str, style: Style, output_buffer: &mut String)
    ensures
        final(output_buffer)@ == old(output_buffer)@ + section_output(text@, style),
{
    let ghost start = output_buffer@;
    if !style.background.is_no_color() {
        push_color_escape(output_buffer, '4', style.background);
    }
    if !style.foreground.is_no_color() {
        push_color_escape(output_buffer, '3', style.foreground);
    }
    output_buffer.append(text);
    assert(output_buffer@ =~= start + section_output(text@, style));
}

/// Appends the spans of one line to the buffer, then a line feed.
pub fn paint_line(sections: &Vec<(Style, String)>, output_buffer: &mut String)
    ensures
        final(output_buffer)@ == old(output_buffer)@ + line_output(spans_view(sections@)),
{
    let ghost start = output_buffer@;
    let ghost sv = spans_view(sections@);
    assert(sv.subrange(0, sv.len() as int) =~= sv);
    let mut i: usize = 0;
    while i < sections.len()
        invariant
            sv == spans_view(sections@),
            i <= sections@.len(),
            output_buffer@ + line_output(sv.subrange(i as int, sv.len() as int)) == start
                + line_output(sv),
        decreases sections.len() - i,
    {
        proof {
            let rest = sv.subrange(i as int, sv.len() as int);
            assert(rest.drop_first() =~= sv.subrange(i + 1, sv.len() as int));
            assert(rest[0] == sv[i as int]);
        }
        paint_section(sections[i].1.as_str(), sections[i].0, output_buffer);
        proof {
            assert(output_buffer@ + line_output(sv.subrange(i + 1, sv.len() as int)) =~= start
                + line_output(sv));
        }
        i += 1;
    }
    push_char(output_buffer, '\n');
    assert(sv.subrange(sv.len() as int, sv.len() as int) =~= Seq::<(Style, Seq<char>)>::empty());
    assert(output_buffer@ =~= start + line_output(sv));
}

} // verus!
