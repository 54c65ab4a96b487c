use vstd::prelude::*;

verus! {

/// A color with red, green, blue and alpha channels.
///
/// The all-zero value is the "no color" sentinel: a channel set to it is not
/// emitted at all.
#[derive(Clone, Copy, Debug, PartialEq, Eq, Structural)]
pub struct Color {
    pub r: u8,
    pub g: u8,
    pub b: u8,
    pub a: u8,
}

impl Color {
    pub open spec fn is_no_color_spec(&self) -> bool {
        self.r == 0 && self.g == 0 && self.b == 0 && self.a == 0
    }

    /// The "no color" sentinel.
    pub fn no_color() -> (c: Color)
        ensures
            c.is_no_color_spec(),
    {
        Color { r: 0, g: 0, b: 0, a: 0 }
    }

    /// Opaque black.
    pub fn black() -> (c: Color)
        ensures
            c == (Color { r: 0, g: 0, b: 0, a: 255 }),
    {
        Color { r: 0, g: 0, b: 0, a: 255 }
    }

    /// Opaque white.
    pub fn white() -> (c: Color)
        ensures
            c == (Color { r: 255, g: 255, b: 255, a: 255 }),
    {
        Color { r: 255, g: 255, b: 255, a: 255 }
    }

    #[verifier::when_used_as_spec(is_no_color_spec)]
    pub fn is_no_color(&self) -> (r: bool)
        ensures
            r == self.is_no_color_spec(),
    {
        self.r == 0 && self.g == 0 && self.b == 0 && self.a == 0
    }
}

/// A set of font attributes, one bit each.
#[derive(Clone, Copy, Debug, PartialEq, Eq, Structural)]
pub struct FontStyle {
    pub bits: u8,
}

impl FontStyle {
    pub fn empty() -> (f: FontStyle)
        ensures
            f.bits == 0,
    {
        FontStyle { bits: 0 }
    }

    pub fn bold() -> (f: FontStyle)
        ensures
            f.bits == 1,
    {
        FontStyle { bits: 1 }
    }

    pub fn underline() -> (f: FontStyle)
        ensures
            f.bits == 2,
    {
        FontStyle { bits: 2 }
    }

    pub fn italic() -> (f: FontStyle)
        ensures
            f.bits == 4,
    {
        FontStyle { bits: 4 }
    }
}

/// A fully resolved style: every channel has a value.
#[derive(Clone, Copy, Debug, PartialEq, Eq, Structural)]
pub struct Style {
    pub foreground: Color,
    pub background: Color,
    pub font_style: FontStyle,
}

/// A partial style: a channel that is `None` inherits from the style it is
/// applied to.
#[derive(Clone, Copy, Debug, PartialEq, Eq, Structural)]
pub struct StyleModifier {
    pub foreground: Option<Color>,
    pub background: Option<Color>,
    pub font_style: Option<FontStyle>,
}

/// The value of a channel after a modifier: the modifier's value where it
/// sets one, the base value otherwise.
pub open spec fn channel<T>(modified: Option<T>, base: T) -> T {
    match modified {
        Some(v) => v,
        None => base,
    }
}

/// The style that results from applying `modifier` on top of `base`.
pub open spec fn applied(base: Style, modifier: StyleModifier) -> Style {
    Style {
        foreground: channel(modifier.foreground, base.foreground),
        background: channel(modifier.background, base.background),
        font_style: channel(modifier.font_style, base.font_style),
    }
}

impl Style {
    /// Applies `modifier` on top of this style: each channel that the
    /// modifier sets overrides, each other channel is kept.
    pub fn apply(&self, modifier: StyleModifier) -> (r: Style)
        ensures
            r == applied(*self, modifier),
    {
        Style {
            foreground: match modifier.foreground {
                Some(c) => c,
                None => self.foreground,
            },
            background: match modifier.background {
                Some(c) => c,
                None => self.background,
            },
            font_style: match modifier.font_style {
                Some(f) => f,
                None => self.font_style,
            },
        }
    }
}

} // verus!
