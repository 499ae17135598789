//! Widget-level drawing commands, executed in order against a display.

use vstd::prelude::*;
use crate::geometry::{Point, Rectangle};
use crate::color::Rgb565;
use crate::fonts::font::MicroFont;

verus! {

/// Horizontal alignment of word-wrapped text inside its box.
#[derive(Clone, Copy, Debug, PartialEq, Eq, Structural)]
pub enum HorizontalAlignment {
    /// Lines start at the left edge.
    Left,
    /// Lines are centered.
    Center,
    /// Lines end at the right edge.
    Right,
    /// Words are spread to fill each line.
    Justified,
}

/// One widget-level drawing command.
#[derive(Clone, Copy, Debug)]
pub enum Command<'a> {
    /// A rectangle over `area`: filled, or a 1-pixel outline.
    Rect { area: Rectangle, color: Rgb565, filled: bool },
    /// A string drawn with `font` in `color`, the top of its line at `origin`.
    Text { text: &'a str, origin: Point, font: &'a MicroFont, color: Rgb565 },
    /// A string word-wrapped and aligned inside `bounds`.
    TextBox {
        text: &'a str,
        bounds: Rectangle,
        font: &'a MicroFont,
        color: Rgb565,
        alignment: HorizontalAlignment,
    },
}

} // verus!
