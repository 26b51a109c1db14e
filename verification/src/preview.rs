//! Decisions of the preview pane: when it shows the compact summary, and
//! which palette colours the sample code is drawn in.

use vstd::prelude::*;
use crate::color::Color;
use crate::theme::Theme;

verus! {

/// A palette colour, or `light` in its place when the colour is black
/// (an unset slot).
pub open spec fn fallback(base: Color, light: Color) -> Color {
    if base != Color::Black {
        base
    } else {
        light
    }
}

/// `base`, unless it is black; then `light`.
pub fn fallback_color(base: Color, light: Color) -> (r: Color)
    ensures
        r == fallback(base, light),
{
    if base != Color::Black {
        base
    } else {
        light
    }
}

/// The colours the sample code of the preview is drawn in.
#[derive(PartialEq, Eq, Structural, Clone, Copy, Debug)]
pub struct PreviewColors {
    pub keyword: Color,
    pub function: Color,
    pub type_ident: Color,
    pub text: Color,
    pub literal: Color,
    pub macro_name: Color,
    pub comment: Color,
    pub line_number: Color,
}

/// The sample code's colours for `theme`: keywords in palette colour 1,
/// functions in 4, types in 3, literals in 2 and macros in 5 (each replaced
/// by its bright variant, 8 slots on, when black), plain text in the
/// foreground, and comments and line numbers in colour 8.
pub fn preview_colors(theme: &Theme) -> (r: PreviewColors)
    ensures
        r.keyword == fallback(theme.palette@[1], theme.palette@[9]),
        r.function == fallback(theme.palette@[4], theme.palette@[12]),
        r.type_ident == fallback(theme.palette@[3], theme.palette@[11]),
        r.text == theme.foreground,
        r.literal == fallback(theme.palette@[2], theme.palette@[10]),
        r.macro_name == fallback(theme.palette@[5], theme.palette@[13]),
        r.comment == theme.palette@[8],
        r.line_number == theme.palette@[8],
{
    PreviewColors {
        keyword: fallback_color(theme.palette[1], theme.palette[9]),
        function: fallback_color(theme.palette[4], theme.palette[12]),
        type_ident: fallback_color(theme.palette[3], theme.palette[11]),
        text: theme.foreground,
        literal: fallback_color(theme.palette[2], theme.palette[10]),
        macro_name: fallback_color(theme.palette[5], theme.palette[13]),
        comment: theme.palette[8],
        line_number: theme.palette[8],
    }
}

/// The preview shows only a compact summary in an area narrower than 40
/// columns or shorter than 12 rows.
pub fn preview_is_compact(width: u16, height: u16) -> (r: bool)
    ensures
        r == (width < 40 || height < 12),
{
    width < 40 || height < 12
}

} // verus!
