//! The colours that do not depend on the window's theme.

use crate::highlight::SectionStyle;
use crate::syntax::TokenKind;
use vstd::prelude::*;

verus! {

/// A colour by its red, green and blue parts.
#[derive(Clone, Copy, Debug, PartialEq, Eq, Structural)]
pub struct Rgb {
    pub red: u8,
    pub green: u8,
    pub blue: u8,
}

/// The colour of a token of raw text; none for plain text, which has the
/// colour of the theme.
pub open spec fn token_rgb(kind: TokenKind) -> Option<Rgb> {
    match kind {
        TokenKind::Text => Some(Rgb { red: 255, green: 150, blue: 80 }),
        TokenKind::Number => Some(Rgb { red: 150, green: 200, blue: 255 }),
        TokenKind::Boolean => Some(Rgb { red: 150, green: 255, blue: 150 }),
        TokenKind::Null => Some(Rgb { red: 255, green: 150, blue: 255 }),
        TokenKind::Plain => None,
    }
}

/// The colour of a token of raw text: orange for strings, light blue for
/// numbers, light green for booleans, pink for null.
pub fn token_color(kind: TokenKind) -> (color: Option<Rgb>)
    ensures
        color == token_rgb(kind),
{
    match kind {
        TokenKind::Text => Some(Rgb { red: 255, green: 150, blue: 80 }),
        TokenKind::Number => Some(Rgb { red: 150, green: 200, blue: 255 }),
        TokenKind::Boolean => Some(Rgb { red: 150, green: 255, blue: 150 }),
        TokenKind::Null => Some(Rgb { red: 255, green: 150, blue: 255 }),
        TokenKind::Plain => None,
    }
}

/// The colours of a section of a label, text first and background second;
/// none for a plain section, which has the colour of its label on no
/// background.
pub open spec fn section_rgb(style: SectionStyle) -> Option<(Rgb, Rgb)> {
    match style {
        SectionStyle::Highlighted => Some(
            (Rgb { red: 0, green: 0, blue: 0 }, Rgb { red: 255, green: 255, blue: 0 }),
        ),
        SectionStyle::Plain => None,
    }
}

/// The colours of a section of a label: a search match is black on yellow.
pub fn section_colors(style: SectionStyle) -> (colors: Option<(Rgb, Rgb)>)
    ensures
        colors == section_rgb(style),
{
    match style {
        SectionStyle::Highlighted => Some(
            (Rgb { red: 0, green: 0, blue: 0 }, Rgb { red: 255, green: 255, blue: 0 }),
        ),
        SectionStyle::Plain => None,
    }
}

} // verus!
