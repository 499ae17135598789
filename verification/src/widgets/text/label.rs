//! A single-line text label.

use vstd::prelude::*;
use crate::geometry::{Point, Size, Rectangle};
use crate::color::{Rgb565, fg};
use crate::fonts::font::MicroFont;
use crate::fonts::style::{MicroFontStyle, Baseline, TextMetrics, metrics_of, measure_ok, string_width_of};
use crate::widgets::layout::stack::flex::sat_sub;
use crate::widgets::command::Command;

verus! {

/// Horizontal text alignment within the label bounds.
#[derive(Clone, Copy, Debug, PartialEq, Eq, Structural)]
pub enum TextAlign {
    /// Align text to the left edge (default).
    Left,
    /// Center text horizontally within bounds.
    Center,
    /// Align text to the right edge.
    Right,
}

/// The unscaled style that text widgets draw with: the color, no background.
pub open spec fn plain_style<'a>(font: &'a MicroFont, color: Rgb565) -> MicroFontStyle<'a> {
    MicroFontStyle { font, text_color: Some(color), background_color: None, scale: 1 }
}

/// An `i32` halved with truncation toward zero, as Rust's `/` does.
pub open spec fn half_toward_zero(v: i32) -> int {
    if v >= 0 { v / 2 } else { -((-v) / 2) }
}

/// How far right of the box's left edge a line `text_width` wide starts:
/// 0 on the left; half the free space, centered; all of it, on the right.
pub open spec fn align_offset(box_width: u32, text_width: u32, align: TextAlign) -> int {
    let free = sat_sub(box_width, text_width) as i32;
    match align {
        TextAlign::Left => 0,
        TextAlign::Center => half_toward_zero(free),
        TextAlign::Right => free as int,
    }
}

/// Where a line of text `text_width` wide starts inside `bounds`.
pub open spec fn aligned_origin(bounds: Rectangle, text_width: u32, align: TextAlign) -> Point {
    Point {
        x: (bounds.top_left.x + align_offset(bounds.size.width, text_width, align)) as i32,
        y: bounds.top_left.y,
    }
}

/// A single-line text label rendered with a `MicroFont`.
#[derive(Clone, Copy, Debug)]
pub struct Label<'a> {
    pub(crate) text: &'a str,
    pub(crate) font: &'a MicroFont,
    pub(crate) color: Rgb565,
    pub(crate) align: TextAlign,
}

impl<'a> Label<'a> {
    /// The label's text.
    pub closed spec fn spec_text(self) -> &'a str {
        self.text
    }

    /// The label's font.
    pub closed spec fn spec_font(self) -> &'a MicroFont {
        self.font
    }

    /// The label's color.
    pub closed spec fn spec_color(self) -> Rgb565 {
        self.color
    }

    /// The label's alignment.
    pub closed spec fn spec_align(self) -> TextAlign {
        self.align
    }

    /// The style the label draws with.
    pub open spec fn style(self) -> MicroFontStyle<'a> {
        plain_style(self.spec_font(), self.spec_color())
    }

    /// The label's pixel width.
    pub open spec fn text_width(self) -> u32 {
        string_width_of(self.style(), self.spec_text()@) as u32
    }

    /// Whether measuring the label stays within machine integers.
    pub open spec fn measure_ok(self) -> bool {
        measure_ok(self.style(), self.spec_text()@, Point { x: 0, y: 0 }, Baseline::Top)
    }

    /// Whether painting the label into `bounds` stays within machine integers.
    pub open spec fn paint_ok(self, bounds: Rectangle) -> bool {
        self.spec_align() != TextAlign::Left ==> {
            &&& measure_ok(self.style(), self.spec_text()@, bounds.top_left, Baseline::Top)
            &&& i32::MIN <= bounds.top_left.x + align_offset(bounds.size.width, self.text_width(), self.spec_align()) <= i32::MAX
        }
    }

    /// The commands that draw the label into `bounds`: its text with the top
    /// of the line at the aligned origin.
    pub open spec fn commands(self, bounds: Rectangle) -> Seq<Command<'a>> {
        let origin = if self.spec_align() == TextAlign::Left {
            bounds.top_left
        } else {
            aligned_origin(bounds, self.text_width(), self.spec_align())
        };
        seq![Command::Text { text: self.spec_text(), origin, font: self.spec_font(), color: self.spec_color() }]
    }

    /// A left-aligned label in the default foreground color (white).
    pub fn new(text: &'a str, font: &'a MicroFont) -> (l: Label<'a>)
        ensures
            l.spec_text() == text,
            l.spec_font() == font,
            l.spec_color().red() == 31 && l.spec_color().green() == 63 && l.spec_color().blue() == 31,
            l.spec_align() == TextAlign::Left,
    {
        Label { text, font, color: fg(), align: TextAlign::Left }
    }

    /// The same label in color `c`.
    pub fn color(self, c: Rgb565) -> (l: Label<'a>)
        ensures
            l.spec_text() == self.spec_text(),
            l.spec_font() == self.spec_font(),
            l.spec_color() == c,
            l.spec_align() == self.spec_align(),
    {
        Label { text: self.text, font: self.font, color: c, align: self.align }
    }

    /// The same label with alignment `align`.
    pub fn align(self, align: TextAlign) -> (l: Label<'a>)
        ensures
            l.spec_text() == self.spec_text(),
            l.spec_font() == self.spec_font(),
            l.spec_color() == self.spec_color(),
            l.spec_align() == align,
    {
        Label { text: self.text, font: self.font, color: self.color, align }
    }

    /// The label's natural size: its text's width and the font's line height.
    pub fn measure(&self) -> (s: Size)
        requires
            self.measure_ok(),
        ensures
            s == metrics_of(self.style(), self.spec_text()@, Point { x: 0, y: 0 }, Baseline::Top).bounding_box.size,
    {
        let style = MicroFontStyle::new(self.font, self.color);
        let metrics = style.measure_string(self.text, Point::zero(), Baseline::Top);
        metrics.bounding_box.size
    }

    /// The commands that draw the label within `bounds`, respecting alignment.
    pub fn paint(&self, bounds: Rectangle) -> (cmds: Vec<Command<'a>>)
        requires
            self.paint_ok(bounds),
        ensures
            cmds@ == self.commands(bounds),
    {
        let style = MicroFontStyle::new(self.font, self.color);
        let origin = match self.align {
            TextAlign::Left => bounds.top_left,
            TextAlign::Center | TextAlign::Right => {
                let metrics = style.measure_string(self.text, bounds.top_left, Baseline::Top);
                let text_width = metrics.bounding_box.size.width;
                let offset = match self.align {
                    TextAlign::Center => bounds.size.width.saturating_sub(text_width) as i32 / 2,
                    _ => bounds.size.width.saturating_sub(text_width) as i32,
                };
                Point::new(bounds.top_left.x + offset, bounds.top_left.y)
            },
        };
        let mut cmds: Vec<Command<'a>> = Vec::new();
        cmds.push(Command::Text { text: self.text, origin, font: self.font, color: self.color });
        cmds
    }
}

} // verus!
