//! Styles of text in the terminal, as plain values: the colors, and the
//! modifiers added and removed, with how one style is laid over another.
use vstd::prelude::*;

verus! {

/// A color of the terminal: one of the named colors, an RGB color or an
/// entry of the 256-color palette.
#[derive(Clone, Copy, Debug, PartialEq, Eq, Structural)]
pub enum TermColor {
    Reset,
    Black,
    Red,
    Green,
    Yellow,
    Blue,
    Magenta,
    Cyan,
    Gray,
    DarkGray,
    LightRed,
    LightGreen,
    LightYellow,
    LightBlue,
    LightMagenta,
    LightCyan,
    White,
    Rgb(u8, u8, u8),
    Indexed(u8),
}

/// The style of a piece of text: its colors where set, and the modifiers
/// (bold, italic, ...; one bit each) it adds and removes.
#[derive(Clone, Copy, Debug, PartialEq, Eq, Structural)]
pub struct TextStyle {
    pub fg: Option<TermColor>,
    pub bg: Option<TermColor>,
    pub underline_color: Option<TermColor>,
    pub add_modifier: u16,
    pub sub_modifier: u16,
}

/// The first color that is set of the two.
pub open spec fn color_or(a: Option<TermColor>, b: Option<TermColor>) -> Option<TermColor> {
    match a {
        Some(_) => a,
        None => b,
    }
}

/// `base` with `other` laid over it: the colors `other` sets replace those
/// of `base`; the modifiers `other` removes are taken out of those `base`
/// adds, and those it adds are put in (and the other way round for the
/// modifiers removed).
pub open spec fn spec_patch(base: TextStyle, other: TextStyle) -> TextStyle {
    TextStyle {
        fg: color_or(other.fg, base.fg),
        bg: color_or(other.bg, base.bg),
        underline_color: color_or(other.underline_color, base.underline_color),
        add_modifier: (base.add_modifier & !other.sub_modifier) | other.add_modifier,
        sub_modifier: (base.sub_modifier & !other.add_modifier) | other.sub_modifier,
    }
}

/// The style that changes nothing: no color set, no modifier added or removed.
pub open spec fn plain_style() -> TextStyle {
    TextStyle { fg: None, bg: None, underline_color: None, add_modifier: 0, sub_modifier: 0 }
}

impl Default for TextStyle {
    fn default() -> (res: Self)
        ensures
            res == plain_style(),
    {
        TextStyle { fg: None, bg: None, underline_color: None, add_modifier: 0, sub_modifier: 0 }
    }
}

impl TextStyle {
    /// The style with the foreground color `c`.
    pub fn fg(self, c: TermColor) -> (res: TextStyle)
        ensures
            res == (TextStyle { fg: Some(c), ..self }),
    {
        TextStyle { fg: Some(c), ..self }
    }

    /// The style with the background color `c`.
    pub fn bg(self, c: TermColor) -> (res: TextStyle)
        ensures
            res == (TextStyle { bg: Some(c), ..self }),
    {
        TextStyle { bg: Some(c), ..self }
    }

    /// This style with `other` laid over it.
    pub fn patch(self, other: TextStyle) -> (res: TextStyle)
        ensures
            res == spec_patch(self, other),
    {
        let fg = match other.fg {
            Some(_) => other.fg,
            None => self.fg,
        };
        let bg = match other.bg {
            Some(_) => other.bg,
            None => self.bg,
        };
        let underline_color = match other.underline_color {
            Some(_) => other.underline_color,
            None => self.underline_color,
        };
        TextStyle {
            fg,
            bg,
            underline_color,
            add_modifier: (self.add_modifier & !other.sub_modifier) | other.add_modifier,
            sub_modifier: (self.sub_modifier & !other.add_modifier) | other.sub_modifier,
        }
    }
}

/// Laying a style over a style it was already laid over changes nothing.
pub proof fn lemma_patch_twice(base: TextStyle, other: TextStyle)
    ensures
        spec_patch(spec_patch(base, other), other) == spec_patch(base, other),
{
    let a = base.add_modifier;
    let s = base.sub_modifier;
    let oa = other.add_modifier;
    let os = other.sub_modifier;
    assert((((a & !os) | oa) & !os) | oa == (a & !os) | oa) by (bit_vector);
    assert((((s & !oa) | os) & !oa) | os == (s & !oa) | os) by (bit_vector);
}

} // verus!
