//! A text element: single-line, or word-wrapped to a maximum width, with a
//! cached measurement.

use vstd::prelude::*;
use crate::geometry::{Point, Size, Rectangle};
use crate::color::{Rgb565, fg};
use crate::fonts::font::MicroFont;
use crate::fonts::style::{MicroFontStyle, Baseline, metrics_of, measure_ok, string_width_of};
use crate::widgets::text::label::{TextAlign, plain_style, align_offset, aligned_origin};
use crate::widgets::command::{Command, HorizontalAlignment};

verus! {

/// The single-line alignment that a text alignment draws with: justified
/// text on one line is left-aligned.
pub open spec fn line_align(a: HorizontalAlignment) -> TextAlign {
    match a {
        HorizontalAlignment::Left => TextAlign::Left,
        HorizontalAlignment::Justified => TextAlign::Left,
        HorizontalAlignment::Center => TextAlign::Center,
        HorizontalAlignment::Right => TextAlign::Right,
    }
}

/// A text element supporting single-line and multi-line (word-wrapped)
/// rendering.
#[derive(Clone, Copy, Debug)]
pub struct Text<'a> {
    pub(crate) text: &'a str,
    pub(crate) font: &'a MicroFont,
    pub(crate) color: Rgb565,
    pub(crate) h_align: HorizontalAlignment,
    pub(crate) max_width: Option<u32>,
    pub(crate) cached_size: Option<Size>,
    /// How many times the measurement actually ran.
    pub(crate) compute_count: u32,
}

impl<'a> Text<'a> {
    /// A single-line size in the cache is the measured size of the text.
    #[verifier::type_invariant]
    spec fn cache_coherent(self) -> bool {
        self.max_width is None && self.cached_size is Some ==> self.cached_size == Some(self.line_size())
    }

    pub closed spec fn spec_text(self) -> &'a str {
        self.text
    }

    pub closed spec fn spec_font(self) -> &'a MicroFont {
        self.font
    }

    pub closed spec fn spec_color(self) -> Rgb565 {
        self.color
    }

    pub closed spec fn spec_align(self) -> HorizontalAlignment {
        self.h_align
    }

    pub closed spec fn spec_max_width(self) -> Option<u32> {
        self.max_width
    }

    pub closed spec fn spec_cached(self) -> Option<Size> {
        self.cached_size
    }

    pub closed spec fn spec_compute_count(self) -> u32 {
        self.compute_count
    }

    /// The style the text draws with.
    pub open spec fn style(self) -> MicroFontStyle<'a> {
        plain_style(self.spec_font(), self.spec_color())
    }

    /// The single-line size: the string's width and the line height.
    pub open spec fn line_size(self) -> Size {
        metrics_of(self.style(), self.spec_text()@, Point { x: 0, y: 0 }, Baseline::Top).bounding_box.size
    }

    /// Whether measuring the text on one line stays within machine integers.
    pub open spec fn measure_ok(self) -> bool {
        measure_ok(self.style(), self.spec_text()@, Point { x: 0, y: 0 }, Baseline::Top)
    }

    /// Whether painting into `bounds` stays within machine integers.
    pub open spec fn paint_ok(self, bounds: Rectangle) -> bool {
        self.spec_max_width() is None ==> {
            &&& self.spec_cached() is None ==> self.measure_ok() && self.spec_compute_count() < u32::MAX
            &&& i32::MIN <= bounds.top_left.x + align_offset(
                bounds.size.width,
                self.line_size().width,
                line_align(self.spec_align()),
            ) <= i32::MAX
        }
    }

    /// What painting does to the text: a single-line text that is not yet
    /// measured is measured (its size cached, its count raised by one);
    /// nothing else changes.
    pub open spec fn paint_step(self, after: Text<'a>) -> bool {
        &&& after.spec_text() == self.spec_text()
        &&& after.spec_font() == self.spec_font()
        &&& after.spec_color() == self.spec_color()
        &&& after.spec_align() == self.spec_align()
        &&& after.spec_max_width() == self.spec_max_width()
        &&& if self.spec_max_width() is None && self.spec_cached() is None {
            &&& after.spec_cached() == Some(self.line_size())
            &&& after.spec_compute_count() == self.spec_compute_count() + 1
        } else {
            &&& after.spec_cached() == self.spec_cached()
            &&& after.spec_compute_count() == self.spec_compute_count()
        }
    }

    /// The commands that draw the text into `bounds`: on one line, the string
    /// at its aligned origin; with a maximum width, a word-wrapped box.
    pub open spec fn commands(self, bounds: Rectangle) -> Seq<Command<'a>> {
        match self.spec_max_width() {
            None => {
                let a = line_align(self.spec_align());
                let origin = if a == TextAlign::Left {
                    bounds.top_left
                } else {
                    aligned_origin(bounds, self.line_size().width, a)
                };
                seq![Command::Text { text: self.spec_text(), origin, font: self.spec_font(), color: self.spec_color() }]
            },
            Some(_) => seq![Command::TextBox {
                text: self.spec_text(),
                bounds,
                font: self.spec_font(),
                color: self.spec_color(),
                alignment: self.spec_align(),
            }],
        }
    }

    /// Single-line, left-aligned text in the default foreground color (white).
    pub fn new(text: &'a str, font: &'a MicroFont) -> (t: Text<'a>)
        ensures
            t.spec_text() == text,
            t.spec_font() == font,
            t.spec_color().red() == 31 && t.spec_color().green() == 63 && t.spec_color().blue() == 31,
            t.spec_align() == HorizontalAlignment::Left,
            t.spec_max_width() is None,
            t.spec_cached() is None,
            t.spec_compute_count() == 0,
    {
        Text {
            text,
            font,
            color: fg(),
            h_align: HorizontalAlignment::Left,
            max_width: None,
            cached_size: None,
            compute_count: 0,
        }
    }

    /// The same text in color `color` (the measurement does not depend on it).
    pub fn color(self, color: Rgb565) -> (t: Text<'a>)
        ensures
            t.spec_text() == self.spec_text(),
            t.spec_font() == self.spec_font(),
            t.spec_color() == color,
            t.spec_align() == self.spec_align(),
            t.spec_max_width() == self.spec_max_width(),
            t.spec_cached() == self.spec_cached(),
            t.spec_compute_count() == self.spec_compute_count(),
    {
        proof { use_type_invariant(&self); }
        Text { color, ..self }
    }

    fn aligned(self, h_align: HorizontalAlignment) -> (t: Text<'a>)
        ensures
            t.spec_text() == self.spec_text(),
            t.spec_font() == self.spec_font(),
            t.spec_color() == self.spec_color(),
            t.spec_align() == h_align,
            t.spec_max_width() == self.spec_max_width(),
            t.spec_cached() is None,
            t.spec_compute_count() == self.spec_compute_count(),
    {
        Text { h_align, cached_size: None, ..self }
    }

    /// Left-align text (default); clears the cached measurement.
    pub fn left(self) -> (t: Text<'a>)
        ensures
            t.spec_text() == self.spec_text(),
            t.spec_font() == self.spec_font(),
            t.spec_color() == self.spec_color(),
            t.spec_align() == HorizontalAlignment::Left,
            t.spec_max_width() == self.spec_max_width(),
            t.spec_cached() is None,
            t.spec_compute_count() == self.spec_compute_count(),
    {
        self.aligned(HorizontalAlignment::Left)
    }

    /// Center text horizontally; clears the cached measurement.
    pub fn center(self) -> (t: Text<'a>)
        ensures
            t.spec_text() == self.spec_text(),
            t.spec_font() == self.spec_font(),
            t.spec_color() == self.spec_color(),
            t.spec_align() == HorizontalAlignment::Center,
            t.spec_max_width() == self.spec_max_width(),
            t.spec_cached() is None,
            t.spec_compute_count() == self.spec_compute_count(),
    {
        self.aligned(HorizontalAlignment::Center)
    }

    /// Right-align text; clears the cached measurement.
    pub fn right(self) -> (t: Text<'a>)
        ensures
            t.spec_text() == self.spec_text(),
            t.spec_font() == self.spec_font(),
            t.spec_color() == self.spec_color(),
            t.spec_align() == HorizontalAlignment::Right,
            t.spec_max_width() == self.spec_max_width(),
            t.spec_cached() is None,
            t.spec_compute_count() == self.spec_compute_count(),
    {
        self.aligned(HorizontalAlignment::Right)
    }

    /// Justify text (distribute words to fill width); clears the cached
    /// measurement.
    pub fn justified(self) -> (t: Text<'a>)
        ensures
            t.spec_text() == self.spec_text(),
            t.spec_font() == self.spec_font(),
            t.spec_color() == self.spec_color(),
            t.spec_align() == HorizontalAlignment::Justified,
            t.spec_max_width() == self.spec_max_width(),
            t.spec_cached() is None,
            t.spec_compute_count() == self.spec_compute_count(),
    {
        self.aligned(HorizontalAlignment::Justified)
    }

    /// Enable word wrapping at `w` pixels; clears the cached measurement.
    pub fn max_width(self, w: u32) -> (t: Text<'a>)
        ensures
            t.spec_text() == self.spec_text(),
            t.spec_font() == self.spec_font(),
            t.spec_color() == self.spec_color(),
            t.spec_align() == self.spec_align(),
            t.spec_max_width() == Some(w),
            t.spec_cached() is None,
            t.spec_compute_count() == self.spec_compute_count(),
    {
        Text { max_width: Some(w), cached_size: None, ..self }
    }

    /// The intrinsic size of the text, computed once and then cached.
    ///
    /// On one line: the string's width and the line height. With a maximum
    /// width: that width and `wrapped_height`, the height that word wrapping
    /// at that width gives (only read when nothing is cached).
    pub fn measure(&mut self, wrapped_height: u32) -> (s: Size)
        requires
            old(self).spec_cached() is None ==> {
                &&& old(self).spec_max_width() is None ==> old(self).measure_ok()
                &&& old(self).spec_compute_count() < u32::MAX
            },
        ensures
            final(self).spec_text() == old(self).spec_text(),
            final(self).spec_font() == old(self).spec_font(),
            final(self).spec_color() == old(self).spec_color(),
            final(self).spec_align() == old(self).spec_align(),
            final(self).spec_max_width() == old(self).spec_max_width(),
            final(self).spec_cached() == Some(s),
            old(self).spec_cached() matches Some(c) ==> s == c && final(self).spec_compute_count()
                == old(self).spec_compute_count(),
            old(self).spec_cached() is None ==> {
                &&& final(self).spec_compute_count() == old(self).spec_compute_count() + 1
                &&& s == match old(self).spec_max_width() {
                    None => old(self).line_size(),
                    Some(w) => Size { width: w, height: wrapped_height },
                }
            },
    {
        proof { use_type_invariant(&*self); }
        if let Some(size) = self.cached_size {
            return size;
        }
        let size = match self.max_width {
            None => {
                let style = MicroFontStyle::new(self.font, self.color);
                let metrics = style.measure_string(self.text, Point::zero(), Baseline::Top);
                metrics.bounding_box.size
            },
            Some(max_w) => Size::new(max_w, wrapped_height),
        };
        let count = self.compute_count + 1;
        *self = Text { cached_size: Some(size), compute_count: count, ..*self };
        size
    }

    /// How many times the measurement actually ran.
    pub fn compute_count(&self) -> (c: u32)
        ensures
            c == self.spec_compute_count(),
    {
        self.compute_count
    }

    /// The string.
    pub fn text(&self) -> (s: &'a str)
        ensures
            s == self.spec_text(),
    {
        self.text
    }

    /// The font.
    pub fn font(&self) -> (f: &'a MicroFont)
        ensures
            f == self.spec_font(),
    {
        self.font
    }

    /// The text color.
    pub fn text_color(&self) -> (c: Rgb565)
        ensures
            c == self.spec_color(),
    {
        self.color
    }

    /// The horizontal alignment.
    pub fn alignment(&self) -> (a: HorizontalAlignment)
        ensures
            a == self.spec_align(),
    {
        self.h_align
    }

    /// The width to word-wrap at, if the text wraps.
    pub fn wrap_width(&self) -> (w: Option<u32>)
        ensures
            w == self.spec_max_width(),
    {
        self.max_width
    }

    /// The cached measurement, if there is one.
    pub fn cached_size(&self) -> (c: Option<Size>)
        ensures
            c == self.spec_cached(),
    {
        self.cached_size
    }

    /// The commands that draw the text within `bounds`, respecting alignment
    /// and wrapping mode. A single-line text is measured first, through the
    /// cache.
    pub fn paint(&mut self, bounds: Rectangle) -> (cmds: Vec<Command<'a>>)
        requires
            old(self).paint_ok(bounds),
        ensures
            cmds@ == old(self).commands(bounds),
            old(self).paint_step(*final(self)),
    {
        proof { use_type_invariant(&*self); }
        let mut cmds: Vec<Command<'a>> = Vec::new();
        match self.max_width {
            None => {
                let text_width = self.measure(0).width;
                let origin = match self.h_align {
                    HorizontalAlignment::Left | HorizontalAlignment::Justified => bounds.top_left,
                    HorizontalAlignment::Center => {
                        let offset = bounds.size.width.saturating_sub(text_width) as i32 / 2;
                        Point::new(bounds.top_left.x + offset, bounds.top_left.y)
                    },
                    HorizontalAlignment::Right => {
                        let offset = bounds.size.width.saturating_sub(text_width) as i32;
                        Point::new(bounds.top_left.x + offset, bounds.top_left.y)
                    },
                };
                cmds.push(Command::Text { text: self.text, origin, font: self.font, color: self.color });
            },
            Some(_) => {
                cmds.push(Command::TextBox {
                    text: self.text,
                    bounds,
                    font: self.font,
                    color: self.color,
                    alignment: self.h_align,
                });
            },
        }
        cmds
    }
}

} // verus!
