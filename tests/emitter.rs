use delta::paint::{
    background_style_sections, paint_line, paint_section, region_mode, BackgroundStyles,
    RegionMode,
};
use delta::style::{Color, FontStyle, Style, StyleModifier};

fn modifier(r: u8) -> StyleModifier {
    StyleModifier { foreground: None, background: Some(Color { r, g: 0, b: 0, a: 255 }), font_style: None }
}

fn styles() -> BackgroundStyles {
    BackgroundStyles {
        minus_style_modifier: modifier(1),
        minus_emph_style_modifier: modifier(2),
        plus_style_modifier: modifier(3),
        plus_emph_style_modifier: modifier(4),
    }
}

#[test]
fn section_with_both_colors() {
    let mut buffer = String::from(">");
    let style = Style {
        foreground: Color { r: 255, g: 7, b: 42, a: 255 },
        background: Color { r: 0, g: 100, b: 9, a: 255 },
        font_style: FontStyle::empty(),
    };
    paint_section("hi", style, &mut buffer);
    assert_eq!(buffer, ">\x1b[48;2;0;100;9m\x1b[38;2;255;7;42mhi");
}

#[test]
fn section_without_colors() {
    let mut buffer = String::new();
    let style = Style { foreground: Color::no_color(), background: Color::no_color(), font_style: FontStyle::empty() };
    paint_section("plain", style, &mut buffer);
    assert_eq!(buffer, "plain");
}

#[test]
fn line_is_spans_then_newline() {
    let mut buffer = String::new();
    let fg = Style { foreground: Color::white(), background: Color::no_color(), font_style: FontStyle::empty() };
    let bg = Style { foreground: Color::no_color(), background: Color::black(), font_style: FontStyle::empty() };
    paint_line(&vec![(fg, String::from("a")), (bg, String::from("b"))], &mut buffer);
    assert_eq!(buffer, "\x1b[38;2;255;255;255ma\x1b[48;2;0;0;0mb\n");
}

#[test]
fn mode_follows_line_counts() {
    assert_eq!(region_mode(2, 2), RegionMode::Paired);
    assert_eq!(region_mode(0, 0), RegionMode::Paired);
    assert_eq!(region_mode(1, 2), RegionMode::Plain);
}

#[test]
fn plain_region_gets_one_span_per_line() {
    let minus = vec![String::from("a"), String::from("b")];
    let plus = vec![String::from("c")];
    let (m, p) = background_style_sections(&minus, &plus, &styles());
    assert_eq!(m, vec![vec![(modifier(1), String::from("a"))], vec![(modifier(1), String::from("b"))]]);
    assert_eq!(p, vec![vec![(modifier(3), String::from("c"))]]);
}

#[test]
fn paired_region_emphasises_the_change() {
    let minus = vec![String::from("foo(x)  ")];
    let plus = vec![String::from("foo(yz)")];
    let (m, p) = background_style_sections(&minus, &plus, &styles());
    assert_eq!(
        m,
        vec![vec![
            (modifier(1), String::from("foo(")),
            (modifier(2), String::from("x")),
            (modifier(1), String::from(")  ")),
        ]]
    );
    assert_eq!(
        p,
        vec![vec![
            (modifier(3), String::from("foo(")),
            (modifier(4), String::from("yz")),
            (modifier(3), String::from(")")),
        ]]
    );
}

#[test]
fn paired_region_with_identical_lines_has_empty_emphasis() {
    let minus = vec![String::from("same")];
    let plus = vec![String::from("same")];
    let (m, _) = background_style_sections(&minus, &plus, &styles());
    assert_eq!(
        m,
        vec![vec![
            (modifier(1), String::from("same")),
            (modifier(2), String::new()),
            (modifier(1), String::new()),
        ]]
    );
}
