use delta::paint::superimpose_style_sections::{
    coalesce, explode, first_mismatch, superimpose, superimpose_style_sections,
};
use delta::style::{Color, FontStyle, Style, StyleModifier};

fn style() -> Style {
    Style { foreground: Color::black(), background: Color::black(), font_style: FontStyle::bold() }
}

fn style_modifier() -> StyleModifier {
    StyleModifier {
        foreground: Some(Color::white()),
        background: Some(Color::white()),
        font_style: Some(FontStyle::underline()),
    }
}

fn superimposed_style() -> Style {
    Style {
        foreground: Color::white(),
        background: Color::white(),
        font_style: FontStyle::underline(),
    }
}

#[test]
fn test_superimpose_style_sections_1() {
    let string = String::from("ab");
    let sections_1 = vec![(style(), string.clone())];
    let sections_2 = vec![(style_modifier(), string.clone())];
    let superimposed = vec![(superimposed_style(), string.clone())];
    assert_eq!(superimpose_style_sections(sections_1, sections_2), superimposed);
}

#[test]
fn test_superimpose_style_sections_2() {
    let sections_1 = vec![(style(), String::from("ab"))];
    let sections_2 = vec![
        (style_modifier(), String::from("a")),
        (style_modifier(), String::from("b")),
    ];
    let superimposed = vec![(superimposed_style(), String::from("ab"))];
    assert_eq!(superimpose_style_sections(sections_1, sections_2), superimposed);
}

#[test]
fn test_explode() {
    let arbitrary = 0;
    let string = String::from("ab");
    assert_eq!(explode(vec![(arbitrary, string)]), vec![(arbitrary, 'a'), (arbitrary, 'b')])
}

#[test]
fn test_superimpose() {
    let x = (style(), 'a');
    let pairs = vec![(x, (style_modifier(), 'a'))];
    assert_eq!(superimpose(pairs), vec![(superimposed_style(), 'a')]);
}

#[test]
fn apply_keeps_unset_channels() {
    let modifier = StyleModifier { foreground: None, background: Some(Color::white()), font_style: None };
    let r = style().apply(modifier);
    assert_eq!(
        r,
        Style { foreground: Color::black(), background: Color::white(), font_style: FontStyle::bold() }
    );
}

#[test]
fn superimpose_splits_where_modifiers_change() {
    let plain = StyleModifier { foreground: None, background: None, font_style: None };
    let sections_1 = vec![(style(), String::from("ab")), (style(), String::from("cd"))];
    let sections_2 = vec![
        (plain, String::from("a")),
        (style_modifier(), String::from("bc")),
        (plain, String::from("d")),
    ];
    assert_eq!(
        superimpose_style_sections(sections_1, sections_2),
        vec![
            (style(), String::from("a")),
            (superimposed_style(), String::from("bc")),
            (style(), String::from("d")),
        ]
    );
}

#[test]
fn explode_then_coalesce_keeps_text() {
    let sections = vec![
        (style(), String::from("ab")),
        (style(), String::from("")),
        (superimposed_style(), String::from("c")),
        (superimposed_style(), String::from("de")),
    ];
    let coalesced = coalesce(explode(sections));
    let text: String = coalesced.iter().map(|(_, s)| s.as_str()).collect();
    assert_eq!(text, "abcde");
    assert_eq!(
        coalesced,
        vec![(style(), String::from("ab")), (superimposed_style(), String::from("cde"))]
    );
}

#[test]
fn coalesce_of_minimal_sequence_is_unchanged() {
    let minimal = vec![
        (style(), String::from("ab")),
        (superimposed_style(), String::from("c")),
        (style(), String::from("d")),
    ];
    assert_eq!(coalesce(explode(minimal.clone())), minimal);
}

#[test]
fn coalesce_of_nothing_is_empty() {
    assert_eq!(coalesce(vec![]), vec![]);
    assert_eq!(explode::<u8>(vec![]), vec![]);
}

#[test]
fn mismatched_texts_are_found() {
    let sections_1 = vec![(style(), String::from("ab"))];
    let sections_2 = vec![(style_modifier(), String::from("ac"))];
    assert_eq!(first_mismatch(&sections_1, &sections_2), Some(1));
    let sections_3 = vec![(style_modifier(), String::from("a")), (style_modifier(), String::from("b"))];
    assert_eq!(first_mismatch(&sections_1, &sections_3), None);
    let sections_4 = vec![(style_modifier(), String::from("abc"))];
    assert_eq!(first_mismatch(&sections_1, &sections_4), Some(2));
}
