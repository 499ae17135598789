//! The styled font: text color, optional background and integer scale over
//! a `MicroFont`, with baseline placement and string measurement.

use vstd::prelude::*;
use crate::geometry::{Point, Size, Rectangle};
use crate::color::Rgb565;
use crate::fonts::font::{MicroFont, advance_of, advance_ok, kern_of};

verus! {

/// Where a text position sits vertically relative to the glyphs.
#[derive(Clone, Copy, Debug, PartialEq, Eq, Structural)]
pub enum Baseline {
    /// The position is the top of the line.
    Top,
    /// The position is the bottom row of the line.
    Bottom,
    /// The position is the middle row of the line.
    Middle,
    /// The position is the alphabetic baseline, four fifths down the line.
    Alphabetic,
}

/// The measured extent of a string.
#[derive(Clone, Copy, Debug, PartialEq, Eq, Structural)]
pub struct TextMetrics {
    /// The box the string covers.
    pub bounding_box: Rectangle,
    /// Where the next string would start.
    pub next_position: Point,
}

/// A `MicroFont` styled with a text color, an optional background color and
/// an integer scale.
#[derive(Clone, Copy, Debug)]
pub struct MicroFontStyle<'a> {
    pub font: &'a MicroFont,
    pub text_color: Option<Rgb565>,
    pub background_color: Option<Rgb565>,
    pub scale: u32,
}

/// The height of a line in pixels.
pub open spec fn line_height_of(style: MicroFontStyle) -> int {
    style.font.char_height * style.scale
}

/// How far above `position` the top of the line is, for each baseline.
pub open spec fn baseline_offset_of(style: MicroFontStyle, baseline: Baseline) -> i32 {
    let h = line_height_of(style);
    match baseline {
        Baseline::Top => 0,
        Baseline::Bottom => (if h >= 1 { h - 1 } else { 0 }) as u32 as i32,
        Baseline::Middle => ((if h >= 1 { h - 1 } else { 0 }) / 2) as u32 as i32,
        Baseline::Alphabetic => (h * 4 / 5) as u32 as i32,
    }
}

/// Whether computing the baseline offset stays within `u32`.
pub open spec fn baseline_ok(style: MicroFontStyle, baseline: Baseline) -> bool {
    &&& line_height_of(style) <= u32::MAX
    &&& baseline == Baseline::Alphabetic ==> line_height_of(style) * 4 <= u32::MAX
}

/// Whether code `code` has a glyph in the font.
pub open spec fn in_font(font: MicroFont, code: u8) -> bool {
    font.first_char <= code <= font.last_char
}

/// The glyph index of a code that has a glyph.
pub open spec fn glyph_index(font: MicroFont, code: u8) -> u32 {
    (code - font.first_char) as u32
}

/// The unscaled width of `s` and the glyph index of its last character if it
/// has a glyph: characters without a glyph take a whole cell and break
/// kerning; between two glyphs the kerning adjustment applies, never taking
/// the width below zero.
pub open spec fn width_state(font: MicroFont, s: Seq<char>) -> (int, Option<u32>)
    decreases s.len(),
{
    if s.len() == 0 {
        (0, None)
    } else {
        let (w, prev) = width_state(font, s.drop_last());
        let code = s.last() as u8;
        if !in_font(font, code) {
            (w + font.char_width, None)
        } else {
            let idx = glyph_index(font, code);
            let kerned = match prev {
                Some(pi) => {
                    let v = (w as u32 as i32) + kern_of(font, pi, idx);
                    if v < 0 { 0 } else { v }
                },
                None => w,
            };
            (kerned + advance_of(font, idx), Some(idx))
        }
    }
}

/// Whether measuring `s` stays within machine integers and only reads
/// advance widths that exist.
pub open spec fn width_ok(font: MicroFont, s: Seq<char>) -> bool
    decreases s.len(),
{
    if s.len() == 0 {
        true
    } else {
        let (w, prev) = width_state(font, s.drop_last());
        let code = s.last() as u8;
        &&& width_ok(font, s.drop_last())
        &&& if !in_font(font, code) {
            w + font.char_width <= u32::MAX
        } else {
            let idx = glyph_index(font, code);
            let kerned = match prev {
                Some(pi) => {
                    let v = (w as u32 as i32) + kern_of(font, pi, idx);
                    if v < 0 { 0 } else { v }
                },
                None => w,
            };
            &&& advance_ok(font, idx)
            &&& (prev matches Some(pi) ==> i32::MIN <= (w as u32 as i32) + kern_of(font, pi, idx)
                <= i32::MAX)
            &&& kerned + advance_of(font, idx) <= u32::MAX
        }
    }
}

/// The scaled width of `s` in pixels.
pub open spec fn string_width_of(style: MicroFontStyle, s: Seq<char>) -> int {
    width_state(*style.font, s).0 * style.scale
}

/// Whether measuring `s` with `style` stays within machine integers.
pub open spec fn string_width_ok(style: MicroFontStyle, s: Seq<char>) -> bool {
    &&& width_ok(*style.font, s)
    &&& width_state(*style.font, s).0 * style.scale <= u32::MAX
}

/// Whether measuring `s` at `position` stays within machine integers.
pub open spec fn measure_ok(style: MicroFontStyle, s: Seq<char>, position: Point, baseline: Baseline) -> bool {
    &&& string_width_ok(style, s)
    &&& baseline_ok(style, baseline)
    &&& i32::MIN <= position.y - baseline_offset_of(style, baseline) <= i32::MAX
    &&& i32::MIN <= position.x + (string_width_of(style, s) as u32 as i32) <= i32::MAX
}

/// The metrics of `s` drawn at `position`: the box from the top of the line
/// at `position.x`, as wide as the string and one line high, and the next
/// position one string-width to the right.
pub open spec fn metrics_of(style: MicroFontStyle, s: Seq<char>, position: Point, baseline: Baseline) -> TextMetrics {
    let w = string_width_of(style, s) as u32;
    TextMetrics {
        bounding_box: Rectangle {
            top_left: Point { x: position.x, y: (position.y - baseline_offset_of(style, baseline)) as i32 },
            size: Size { width: w, height: line_height_of(style) as u32 },
        },
        next_position: Point { x: (position.x + (w as i32)) as i32, y: position.y },
    }
}

/// A measured width is never negative and never exceeds `u32`.
pub proof fn lemma_width_state_bounds(font: MicroFont, s: Seq<char>)
    requires
        width_ok(font, s),
    ensures
        0 <= width_state(font, s).0 <= u32::MAX,
    decreases s.len(),
{
    if s.len() > 0 {
        lemma_width_state_bounds(font, s.drop_last());
    }
}

impl<'a> MicroFontStyle<'a> {
    /// A style drawing `font` in `text_color` with no background, unscaled.
    pub fn new(font: &'a MicroFont, text_color: Rgb565) -> (s: Self)
        ensures
            s.font == font,
            s.text_color == Some(text_color),
            s.background_color.is_none(),
            s.scale == 1,
    {
        MicroFontStyle { font, text_color: Some(text_color), background_color: None, scale: 1 }
    }

    /// A style drawing `font` in `text_color` over `background_color`, unscaled.
    pub fn with_background(font: &'a MicroFont, text_color: Rgb565, background_color: Rgb565) -> (s: Self)
        ensures
            s.font == font,
            s.text_color == Some(text_color),
            s.background_color == Some(background_color),
            s.scale == 1,
    {
        MicroFontStyle {
            font,
            text_color: Some(text_color),
            background_color: Some(background_color),
            scale: 1,
        }
    }

    /// The same style scaled by `factor` (at least 1).
    pub fn scaled(self, factor: u32) -> (s: Self)
        ensures
            s.font == self.font,
            s.text_color == self.text_color,
            s.background_color == self.background_color,
            s.scale == if factor >= 1 { factor } else { 1 },
    {
        let mut s = self;
        s.scale = if factor >= 1 { factor } else { 1 };
        s
    }

    /// The height of a line: the font's cell height times the scale.
    pub fn effective_height(&self) -> (h: u32)
        requires
            line_height_of(*self) <= u32::MAX,
        ensures
            h == line_height_of(*self),
    {
        self.font.char_height * self.scale
    }

    /// The line height, as text renderers report it.
    pub fn line_height(&self) -> (h: u32)
        requires
            line_height_of(*self) <= u32::MAX,
        ensures
            h == line_height_of(*self),
    {
        self.effective_height()
    }

    /// How far above a position on `baseline` the top of the line is.
    pub fn baseline_offset(&self, baseline: Baseline) -> (r: i32)
        requires
            baseline_ok(*self, baseline),
        ensures
            r == baseline_offset_of(*self, baseline),
    {
        let h = self.effective_height();
        match baseline {
            Baseline::Top => 0,
            Baseline::Bottom => h.saturating_sub(1) as i32,
            Baseline::Middle => (h.saturating_sub(1) / 2) as i32,
            Baseline::Alphabetic => (h * 4 / 5) as i32,
        }
    }

    /// The width of `text` in pixels, kerning included, times the scale.
    pub fn string_width(&self, text: &str) -> (w: u32)
        requires
            string_width_ok(*self, text@),
        ensures
            w == string_width_of(*self, text@),
    {
        let font = self.font;
        let mut width = 0u32;
        let mut prev_idx: Option<u32> = None;
        for ch in it: text.chars()
            invariant
                it.seq() == text@,
                font == self.font,
                it.index() <= text@.len(),
                width_ok(*font, text@),
                (width as int, prev_idx) == width_state(*font, text@.take(it.index() as int)),
        {
            let ghost pre = text@.take(it.index() as int);
            let ghost cur = text@.take(it.index() + 1);
            assert(cur.drop_last() == pre);
            proof {
                lemma_width_ok_prefix(*font, text@, it.index() + 1);
            }
            let code = ch as u8;
            if code < font.first_char || code > font.last_char {
                width += font.char_width;
                prev_idx = None;
            } else {
                let idx = (code - font.first_char) as u32;
                if let Some(pi) = prev_idx {
                    let k = font.kern(pi, idx);
                    let v = width as i32 + k;
                    width = if v > 0 { v as u32 } else { 0 };
                }
                width += font.advance_width(idx);
                prev_idx = Some(idx);
            }
        }
        assert(text@.take(text@.len() as int) == text@);
        width * self.scale
    }

    /// The box and next position of `text` drawn at `position`.
    pub fn measure_string(&self, text: &str, position: Point, baseline: Baseline) -> (m: TextMetrics)
        requires
            measure_ok(*self, text@, position, baseline),
        ensures
            m == metrics_of(*self, text@, position, baseline),
            m.bounding_box.size.height == self.font.char_height * self.scale,
            m.bounding_box.size.width == width_state(*self.font, text@).0 * self.scale,
            m.bounding_box.size.width <= i32::MAX ==> m.next_position.x == position.x + m.bounding_box.size.width,
            m.next_position.y == position.y,
    {
        proof {
            lemma_measured_box(*self, text@, position, baseline);
        }
        let top = Point::new(position.x, position.y - self.baseline_offset(baseline));
        let w = self.string_width(text);
        TextMetrics {
            bounding_box: Rectangle::new(top, Size::new(w, self.effective_height())),
            next_position: Point::new(position.x + w as i32, position.y),
        }
    }

    /// Replace the text color.
    pub fn set_text_color(&mut self, c: Option<Rgb565>)
        ensures
            final(self).text_color == c,
            final(self).font == old(self).font,
            final(self).background_color == old(self).background_color,
            final(self).scale == old(self).scale,
    {
        self.text_color = c;
    }

    /// Replace the background color.
    pub fn set_background_color(&mut self, c: Option<Rgb565>)
        ensures
            final(self).background_color == c,
            final(self).font == old(self).font,
            final(self).text_color == old(self).text_color,
            final(self).scale == old(self).scale,
    {
        self.background_color = c;
    }
}

/// Measuring a string is fine for each of its prefixes.
pub proof fn lemma_width_ok_prefix(font: MicroFont, s: Seq<char>, k: int)
    requires
        width_ok(font, s),
        0 <= k <= s.len(),
    ensures
        width_ok(font, s.take(k)),
    decreases s.len() - k,
{
    if k < s.len() {
        lemma_width_ok_prefix(font, s, k + 1);
        assert(s.take(k + 1).drop_last() == s.take(k));
    } else {
        assert(s.take(k) == s);
    }
}

/// Law: a measured string's box is exactly one drawn line high (the font's
/// cell height times the scale, whatever the text, position or baseline),
/// as wide as the scaled string, and (for a width that fits in `i32`) the
/// next string starts at the box's right edge on the same baseline.
pub proof fn lemma_measured_box(style: MicroFontStyle, s: Seq<char>, position: Point, baseline: Baseline)
    requires
        measure_ok(style, s, position, baseline),
    ensures
        ({
            let m = metrics_of(style, s, position, baseline);
            &&& m.bounding_box.size.height == style.font.char_height * style.scale
            &&& m.bounding_box.size.width == width_state(*style.font, s).0 * style.scale
            &&& m.bounding_box.size.width <= i32::MAX ==> m.next_position.x == position.x + m.bounding_box.size.width
            &&& m.next_position.y == position.y
        }),
{
    lemma_width_state_bounds(*style.font, s);
    let ws = width_state(*style.font, s).0;
    assert(0 <= ws * style.scale) by (nonlinear_arith) requires ws >= 0;
    assert(0 <= style.font.char_height * style.scale) by (nonlinear_arith);
}

} // verus!
