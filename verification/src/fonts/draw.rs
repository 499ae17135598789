//! Glyph rendering: the draw operations that put a string on a display.
//!
//! Drawing produces a list of operations (solid fills, contiguous fills and
//! single pixels) rather than touching a display; whoever holds the display
//! executes them in order.

use vstd::prelude::*;
use crate::geometry::{Point, Size, Rectangle};
use crate::color::{Rgb565, Rgb888, rgb565_to_rgb888, widen};
use crate::fonts::font::{MicroFont, advance_of, advance_ok, kern_of, bbox_of, pixel_ok, alpha_index_of};
use crate::fonts::blend::{build_palette, palette_spec, PALETTE_SIZE};
use crate::fonts::style::{
    MicroFontStyle, Baseline, line_height_of, baseline_offset_of, baseline_ok, in_font, glyph_index,
};

verus! {

/// One drawing operation on a display.
#[derive(Clone, Debug)]
pub enum DrawOp {
    /// Fill `area` with one color.
    FillSolid { area: Rectangle, color: Rgb565 },
    /// Fill `area` row by row, left to right, with `colors`.
    FillContiguous { area: Rectangle, colors: Vec<Rgb565> },
    /// Set a single pixel.
    Pixel { point: Point, color: Rgb565 },
}

/// A drawing operation with its colors as a sequence.
pub enum DrawOpView {
    FillSolid { area: Rectangle, color: Rgb565 },
    FillContiguous { area: Rectangle, colors: Seq<Rgb565> },
    Pixel { point: Point, color: Rgb565 },
}

impl View for DrawOp {
    type V = DrawOpView;

    open spec fn view(&self) -> DrawOpView {
        match self {
            DrawOp::FillSolid { area, color } => DrawOpView::FillSolid { area: *area, color: *color },
            DrawOp::FillContiguous { area, colors } => DrawOpView::FillContiguous { area: *area, colors: colors@ },
            DrawOp::Pixel { point, color } => DrawOpView::Pixel { point: *point, color: *color },
        }
    }
}

/// The views of a list of operations.
pub open spec fn ops_view(ops: Seq<DrawOp>) -> Seq<DrawOpView> {
    ops.map_values(|o: DrawOp| o@)
}

/// A rectangle from its corner and size.
pub open spec fn rect(x: i32, y: i32, w: u32, h: u32) -> Rectangle {
    Rectangle { top_left: Point { x, y }, size: Size { width: w, height: h } }
}

// ── Glyph atlas reads ──────────────────────────────────────────────────

/// The atlas pixel at column `col`, row `row` of a glyph box whose top-left
/// atlas pixel is `(gx, gy)`.
pub open spec fn atlas_index(font: MicroFont, gx: int, gy: int, row: int, col: int) -> int {
    (gy + row) * font.strip_width + gx + col
}

/// Whether every pixel of a `w` by `h` glyph box at `(gx, gy)` can be
/// addressed in `u32` and read from the atlas.
pub open spec fn atlas_ok(font: MicroFont, gx: int, gy: int, w: u32, h: u32) -> bool {
    forall|row: int, col: int|
        0 <= row < h && 0 <= col < w ==> {
            &&& gy + row <= u32::MAX
            &&& #[trigger] atlas_index(font, gx, gy, row, col) <= u32::MAX
            &&& pixel_ok(font, atlas_index(font, gx, gy, row, col))
        }
}

/// The colors of a `w` by `h` glyph box scaled by `scale`, row by row: each
/// atlas pixel repeated `scale` times across and down, mapped through the
/// palette by its alpha index.
pub open spec fn glyph_color_seq(
    font: MicroFont,
    pal: Seq<Rgb565>,
    gx: int,
    gy: int,
    w: u32,
    h: u32,
    scale: u32,
) -> Seq<Rgb565> {
    let ow = w * scale;
    Seq::new(
        (ow * h * scale) as nat,
        |cur: int|
            pal[alpha_index_of(font, atlas_index(font, gx, gy, (cur / ow) / (scale as int), (cur % ow) / (scale as int))) as int],
    )
}

/// Whether the scaled box sizes fit in `u32`.
pub open spec fn glyph_colors_ok(font: MicroFont, gx: int, gy: int, w: u32, h: u32, scale: u32) -> bool {
    &&& w * scale <= u32::MAX
    &&& w * scale * h <= u32::MAX
    &&& w * scale * h * scale <= u32::MAX
    &&& atlas_ok(font, gx, gy, w, h)
}

proof fn lemma_scaled_coords(cur: int, w: int, h: int, scale: int)
    requires
        w > 0,
        h > 0,
        scale > 0,
        0 <= cur < w * scale * h * scale,
    ensures
        0 <= (cur / (w * scale)) / scale < h,
        0 <= (cur % (w * scale)) / scale < w,
        w * scale > 0,
{
    let ow = w * scale;
    assert(ow > 0) by (nonlinear_arith) requires w > 0, scale > 0, ow == w * scale;
    assert(w * scale * h * scale == ow * (h * scale)) by (nonlinear_arith) requires ow == w * scale;
    assert(0 <= cur / ow < h * scale) by (nonlinear_arith)
        requires 0 <= cur < ow * (h * scale), ow > 0, h * scale > 0;
    assert(0 <= (cur / ow) / scale < h) by (nonlinear_arith)
        requires 0 <= cur / ow < h * scale, scale > 0;
    assert(0 <= cur % ow < ow) by (nonlinear_arith) requires ow > 0;
    assert(0 <= (cur % ow) / scale < w) by (nonlinear_arith)
        requires 0 <= cur % ow < ow, ow == w * scale, scale > 0;
}

/// The colors of a glyph box for a contiguous fill (what a glyph iterator
/// yields, collected).
pub fn glyph_colors(
    font: &MicroFont,
    pal: &Vec<Rgb565>,
    gx: u32,
    gy: u32,
    w: u32,
    h: u32,
    scale: u32,
) -> (colors: Vec<Rgb565>)
    requires
        pal@.len() == PALETTE_SIZE,
        glyph_colors_ok(*font, gx as int, gy as int, w, h, scale),
    ensures
        colors@ == glyph_color_seq(*font, pal@, gx as int, gy as int, w, h, scale),
{
    let ow = w * scale;
    let total = ow * h * scale;
    let mut colors: Vec<Rgb565> = Vec::new();
    let mut cur: u32 = 0;
    while cur < total
        invariant
            ow == w * scale,
            total == w * scale * h * scale,
            cur <= total,
            pal@.len() == PALETTE_SIZE,
            glyph_colors_ok(*font, gx as int, gy as int, w, h, scale),
            colors@ =~= glyph_color_seq(*font, pal@, gx as int, gy as int, w, h, scale).take(cur as int),
        decreases total - cur,
    {
        assert(w > 0 && h > 0 && scale > 0) by (nonlinear_arith)
            requires cur < total, total == w * scale * h * scale;
        proof {
            lemma_scaled_coords(cur as int, w as int, h as int, scale as int);
        }
        let (col, row) = (cur % ow / scale, cur / ow / scale);
        assert(atlas_index(*font, gx as int, gy as int, row as int, col as int) <= u32::MAX);
        let idx = ((gy + row) * font.strip_width + gx + col) as usize;
        let ai = font.read_alpha_index(idx);
        colors.push(pal[ai as usize]);
        cur += 1;
    }
    colors
}

// ── Pixel-by-pixel glyphs (no background) ─────────────────────────────

/// The operation for pixel `k` (row-major) of a `w`-wide glyph box at atlas
/// `(gx, gy)`, drawn at `cx`, `top_y` with its box offset `(bxo, byo)`:
/// nothing where the alpha index is 0, else a pixel (at scale 1) or an
/// `s` by `s` square of its palette color.
pub open spec fn pixel_op(
    font: MicroFont,
    pal: Seq<Rgb565>,
    gx: int,
    gy: int,
    bxo: u32,
    byo: u32,
    w: u32,
    cx: i32,
    top_y: i32,
    s: u32,
    k: int,
) -> Seq<DrawOpView> {
    let row = k / (w as int);
    let col = k % (w as int);
    let ai = alpha_index_of(font, atlas_index(font, gx, gy, row, col));
    if ai == 0 {
        Seq::empty()
    } else {
        let px = (cx + (((bxo + col) * s) as u32 as i32)) as i32;
        let py = (top_y + (((byo + row) * s) as u32 as i32)) as i32;
        let c = pal[ai as int];
        if s == 1 {
            seq![DrawOpView::Pixel { point: Point { x: px, y: py }, color: c }]
        } else {
            seq![DrawOpView::FillSolid { area: rect(px, py, s, s), color: c }]
        }
    }
}

/// The operations for the first `k` pixels of a glyph box, row-major.
pub open spec fn pixel_ops_prefix(
    font: MicroFont,
    pal: Seq<Rgb565>,
    gx: int,
    gy: int,
    bxo: u32,
    byo: u32,
    w: u32,
    cx: i32,
    top_y: i32,
    s: u32,
    k: int,
) -> Seq<DrawOpView>
    decreases k,
{
    if k <= 0 {
        Seq::empty()
    } else {
        pixel_ops_prefix(font, pal, gx, gy, bxo, byo, w, cx, top_y, s, k - 1)
            + pixel_op(font, pal, gx, gy, bxo, byo, w, cx, top_y, s, k - 1)
    }
}

/// Whether drawing a glyph box pixel by pixel stays within machine integers.
pub open spec fn pixel_ops_ok(
    font: MicroFont,
    gx: int,
    gy: int,
    bxo: u32,
    byo: u32,
    w: u32,
    h: u32,
    cx: i32,
    top_y: i32,
    s: u32,
) -> bool {
    &&& atlas_ok(font, gx, gy, w, h)
    &&& forall|row: int, col: int|
        0 <= row < h && 0 <= col < w && alpha_index_of(font, #[trigger] atlas_index(font, gx, gy, row, col)) != 0 ==> {
            &&& (bxo + col) * s <= u32::MAX
            &&& (byo + row) * s <= u32::MAX
            &&& i32::MIN <= cx + (((bxo + col) * s) as u32 as i32) <= i32::MAX
            &&& i32::MIN <= top_y + (((byo + row) * s) as u32 as i32) <= i32::MAX
        }
}

/// The operations that draw a glyph box pixel by pixel, skipping fully
/// transparent pixels.
fn glyph_pixel_ops(
    font: &MicroFont,
    pal: &Vec<Rgb565>,
    cell_gx: u32,
    cell_gy: u32,
    bxo: u32,
    byo: u32,
    bw: u32,
    bh: u32,
    cx: i32,
    top_y: i32,
    s: u32,
) -> (ops: Vec<DrawOp>)
    requires
        pal@.len() == PALETTE_SIZE,
        bw > 0,
        pixel_ops_ok(*font, cell_gx + bxo, cell_gy + byo, bxo, byo, bw, bh, cx, top_y, s),
    ensures
        ops_view(ops@) == pixel_ops_prefix(*font, pal@, cell_gx + bxo, cell_gy + byo, bxo, byo, bw, cx, top_y, s, bw * bh),
{
    let ghost gx = cell_gx + bxo;
    let ghost gy = cell_gy + byo;
    let mut ops: Vec<DrawOp> = Vec::new();
    let mut row: u32 = 0;
    while row < bh
        invariant
            row <= bh,
            bw > 0,
            gx == cell_gx + bxo,
            gy == cell_gy + byo,
            pal@.len() == PALETTE_SIZE,
            pixel_ops_ok(*font, gx, gy, bxo, byo, bw, bh, cx, top_y, s),
            ops_view(ops@) == pixel_ops_prefix(*font, pal@, gx, gy, bxo, byo, bw, cx, top_y, s, row * bw),
        decreases bh - row,
    {
        let mut col: u32 = 0;
        while col < bw
            invariant
                row < bh,
                col <= bw,
                bw > 0,
                gx == cell_gx + bxo,
                gy == cell_gy + byo,
                pal@.len() == PALETTE_SIZE,
                pixel_ops_ok(*font, gx, gy, bxo, byo, bw, bh, cx, top_y, s),
                ops_view(ops@) == pixel_ops_prefix(*font, pal@, gx, gy, bxo, byo, bw, cx, top_y, s, row * bw + col),
            decreases bw - col,
        {
            let ghost k = row * bw + col;
            assert(k / (bw as int) == row && k % (bw as int) == col) by (nonlinear_arith)
                requires k == row * bw + col, 0 <= col < bw, row >= 0;
            assert(atlas_index(*font, gx, gy, row as int, col as int) <= u32::MAX);
            assert(gy + row <= u32::MAX);
            let pi = ((cell_gy + byo + row) * font.strip_width + cell_gx + bxo + col) as usize;
            let ai = font.read_alpha_index(pi) as usize;
            let ghost before = ops@;
            if ai != 0 {
                let c = pal[ai];
                let px = cx + ((bxo + col) * s) as i32;
                let py = top_y + ((byo + row) * s) as i32;
                if s == 1 {
                    ops.push(DrawOp::Pixel { point: Point::new(px, py), color: c });
                } else {
                    ops.push(DrawOp::FillSolid { area: Rectangle::new(Point::new(px, py), Size::new(s, s)), color: c });
                }
            }
            assert(ops_view(ops@) =~= ops_view(before) + pixel_op(*font, pal@, gx, gy, bxo, byo, bw, cx, top_y, s, k));
            col += 1;
        }
        assert(row * bw + bw == (row + 1) * bw) by (nonlinear_arith);
        row += 1;
    }
    assert(bh * bw == bw * bh) by (nonlinear_arith);
    ops
}

// ── Whole glyphs and strings ───────────────────────────────────────────

/// The atlas column where glyph `idx`'s cell starts.
pub open spec fn cell_x(font: MicroFont, idx: u32) -> int {
    (idx % font.cols_per_row) * font.char_width
}

/// The atlas row where glyph `idx`'s cell starts.
pub open spec fn cell_y(font: MicroFont, idx: u32) -> int {
    (idx / font.cols_per_row) * font.char_height
}

/// A fill of the given box with the background color, if the style has one.
pub open spec fn bg_fill(style: MicroFontStyle, x: i32, y: i32, w: u32, h: u32) -> Seq<DrawOpView> {
    match style.background_color {
        Some(bg) => seq![DrawOpView::FillSolid { area: rect(x, y, w, h), color: bg }],
        None => Seq::empty(),
    }
}

/// The palette a style draws with: none without a text color, else the
/// text color blended over the background (or black) at 16 coverages.
pub open spec fn palette_of(style: MicroFontStyle) -> Option<Seq<Rgb565>> {
    match style.text_color {
        Some(fg) => Some(
            palette_spec(
                widen(fg),
                match style.background_color {
                    Some(b) => Some(widen(b)),
                    None => None,
                },
            ),
        ),
        None => None,
    }
}

/// The operations that draw glyph `idx` with its cell starting at `cx`:
/// with a text color and a background, the advance box filled with the
/// background and then the tight box filled contiguously; with a text color
/// and no background, the glyph's visible pixels; with no text color, the
/// advance box filled with the background if there is one.
pub open spec fn glyph_ops(style: MicroFontStyle, pal: Option<Seq<Rgb565>>, idx: u32, cx: i32, top_y: i32) -> Seq<DrawOpView> {
    let font = *style.font;
    let s = style.scale;
    let gx0 = cell_x(font, idx);
    let gy0 = cell_y(font, idx);
    let adv = advance_of(font, idx);
    let (bxo, byo, bw, bh) = bbox_of(font, idx);
    match pal {
        Some(p) => if style.background_color is Some {
            bg_fill(style, cx, top_y, (adv * s) as u32, (font.char_height * s) as u32) + if bw > 0 && bh > 0 {
                seq![DrawOpView::FillContiguous {
                    area: rect(
                        (cx + ((bxo * s) as u32 as i32)) as i32,
                        (top_y + ((byo * s) as u32 as i32)) as i32,
                        (bw * s) as u32,
                        (bh * s) as u32,
                    ),
                    colors: glyph_color_seq(font, p, gx0 + bxo, gy0 + byo, bw, bh, s),
                }]
            } else {
                Seq::empty()
            }
        } else {
            if bw > 0 && bh > 0 {
                pixel_ops_prefix(font, p, gx0 + bxo, gy0 + byo, bxo, byo, bw, cx, top_y, s, bw * bh)
            } else {
                Seq::empty()
            }
        },
        None => bg_fill(style, cx, top_y, (adv * s) as u32, line_height_of(style) as u32),
    }
}

/// Whether drawing glyph `idx` at `cx` stays within machine integers and
/// reads only atlas pixels and table entries that exist.
pub open spec fn glyph_ok(style: MicroFontStyle, pal: Option<Seq<Rgb565>>, idx: u32, cx: i32, top_y: i32) -> bool {
    let font = *style.font;
    let s = style.scale;
    let gx0 = cell_x(font, idx);
    let gy0 = cell_y(font, idx);
    let adv = advance_of(font, idx);
    let (bxo, byo, bw, bh) = bbox_of(font, idx);
    &&& font.cols_per_row != 0
    &&& gx0 <= u32::MAX
    &&& gy0 <= u32::MAX
    &&& idx * 4 + 3 <= usize::MAX
    &&& advance_ok(font, idx)
    &&& match pal {
        Some(p) => if style.background_color is Some {
            &&& adv * s <= u32::MAX
            &&& font.char_height * s <= u32::MAX
            &&& bw > 0 && bh > 0 ==> {
                &&& bxo * s <= u32::MAX
                &&& byo * s <= u32::MAX
                &&& bw * s <= u32::MAX
                &&& bh * s <= u32::MAX
                &&& i32::MIN <= cx + ((bxo * s) as u32 as i32) <= i32::MAX
                &&& i32::MIN <= top_y + ((byo * s) as u32 as i32) <= i32::MAX
                &&& gx0 + bxo <= u32::MAX
                &&& gy0 + byo <= u32::MAX
                &&& glyph_colors_ok(font, gx0 + bxo, gy0 + byo, bw, bh, s)
            }
        } else {
            bw > 0 && bh > 0 ==> {
                &&& gx0 + bxo <= u32::MAX
                &&& gy0 + byo <= u32::MAX
                &&& pixel_ops_ok(font, gx0 + bxo, gy0 + byo, bxo, byo, bw, bh, cx, top_y, s)
            }
        },
        None => style.background_color is Some ==> {
            &&& adv * s <= u32::MAX
            &&& line_height_of(style) <= u32::MAX
        },
    }
}

/// The operations drawn so far, the pen's position and the last glyph index
/// after drawing `s` from `top`: a character without a glyph advances one
/// scaled cell (background-filled if there is a background) and breaks
/// kerning; a glyph moves the pen by the scaled kerning after the previous
/// glyph, is drawn there, and advances by its scaled advance width.
pub open spec fn draw_state(style: MicroFontStyle, s: Seq<char>, top: Point, pal: Option<Seq<Rgb565>>) -> (Seq<DrawOpView>, int, Option<u32>)
    decreases s.len(),
{
    if s.len() == 0 {
        (Seq::empty(), top.x as int, None)
    } else {
        let (ops, cx, prev) = draw_state(style, s.drop_last(), top, pal);
        let code = s.last() as u8;
        let font = *style.font;
        let sc = style.scale;
        if !in_font(font, code) {
            let w = (font.char_width * sc) as u32;
            (ops + bg_fill(style, cx as i32, top.y, w, line_height_of(style) as u32), cx + (w as i32), None)
        } else {
            let idx = glyph_index(font, code);
            let cx1 = match prev {
                Some(pi) => cx + kern_of(font, pi, idx) * (sc as i32),
                None => cx,
            };
            (
                ops + glyph_ops(style, pal, idx, cx1 as i32, top.y),
                cx1 + ((advance_of(font, idx) * sc) as u32 as i32),
                Some(idx),
            )
        }
    }
}

/// Whether drawing `s` from `top` stays within machine integers throughout.
pub open spec fn draw_ok(style: MicroFontStyle, s: Seq<char>, top: Point, pal: Option<Seq<Rgb565>>) -> bool
    decreases s.len(),
{
    if s.len() == 0 {
        true
    } else {
        let (ops, cx, prev) = draw_state(style, s.drop_last(), top, pal);
        let code = s.last() as u8;
        let font = *style.font;
        let sc = style.scale;
        &&& draw_ok(style, s.drop_last(), top, pal)
        &&& if !in_font(font, code) {
            &&& font.char_width * sc <= u32::MAX
            &&& style.background_color is Some ==> line_height_of(style) <= u32::MAX
            &&& i32::MIN <= cx + ((font.char_width * sc) as u32 as i32) <= i32::MAX
        } else {
            let idx = glyph_index(font, code);
            let cx1 = match prev {
                Some(pi) => cx + kern_of(font, pi, idx) * (sc as i32),
                None => cx,
            };
            &&& prev matches Some(pi) ==> {
                &&& i32::MIN <= kern_of(font, pi, idx) * (sc as i32) <= i32::MAX
                &&& i32::MIN <= cx + kern_of(font, pi, idx) * (sc as i32) <= i32::MAX
            }
            &&& glyph_ok(style, pal, idx, cx1 as i32, top.y)
            &&& advance_of(font, idx) * sc <= u32::MAX
            &&& i32::MIN <= cx1 + ((advance_of(font, idx) * sc) as u32 as i32) <= i32::MAX
        }
    }
}

/// The top-left of the line for a position on `baseline`.
pub open spec fn line_top(style: MicroFontStyle, position: Point, baseline: Baseline) -> Point {
    Point { x: position.x, y: (position.y - baseline_offset_of(style, baseline)) as i32 }
}

/// Whether drawing `text` at `position` stays within machine integers.
pub open spec fn draw_string_ok(style: MicroFontStyle, text: Seq<char>, position: Point, baseline: Baseline) -> bool {
    &&& baseline_ok(style, baseline)
    &&& i32::MIN <= position.y - baseline_offset_of(style, baseline) <= i32::MAX
    &&& draw_ok(style, text, line_top(style, position, baseline), palette_of(style))
}

proof fn lemma_draw_ok_prefix(style: MicroFontStyle, s: Seq<char>, top: Point, pal: Option<Seq<Rgb565>>, k: int)
    requires
        draw_ok(style, s, top, pal),
        0 <= k <= s.len(),
    ensures
        draw_ok(style, s.take(k), top, pal),
    decreases s.len() - k,
{
    if k < s.len() {
        lemma_draw_ok_prefix(style, s, top, pal, k + 1);
        assert(s.take(k + 1).drop_last() == s.take(k));
    } else {
        assert(s.take(k) == s);
    }
}

proof fn lemma_draw_state_in_range(style: MicroFontStyle, s: Seq<char>, top: Point, pal: Option<Seq<Rgb565>>)
    requires
        draw_ok(style, s, top, pal),
    ensures
        i32::MIN <= draw_state(style, s, top, pal).1 <= i32::MAX,
    decreases s.len(),
{
    if s.len() > 0 {
        lemma_draw_state_in_range(style, s.drop_last(), top, pal);
    }
}

impl<'a> MicroFontStyle<'a> {
    /// The operations that draw glyph `idx` with its cell at `cx`.
    fn draw_glyph(&self, palette: &Option<Vec<Rgb565>>, idx: u32, cx: i32, top_y: i32) -> (ops: Vec<DrawOp>)
        requires
            palette matches Some(p) ==> p@.len() == PALETTE_SIZE,
            glyph_ok(*self, match palette { Some(p) => Some(p@), None => None }, idx, cx, top_y),
        ensures
            ops_view(ops@) == glyph_ops(*self, match palette { Some(p) => Some(p@), None => None }, idx, cx, top_y),
    {
        let ghost gpal = match palette { Some(p) => Some(p@), None => None };
        let s = self.scale;
        let font = self.font;
        let cell_gx = (idx % font.cols_per_row) * font.char_width;
        let cell_gy = (idx / font.cols_per_row) * font.char_height;
        let advance = font.advance_width(idx);
        let (bbox_xo, bbox_yo, bbox_w, bbox_h) = font.glyph_bbox(idx);
        let mut ops: Vec<DrawOp> = Vec::new();
        if let Some(pal) = palette {
            if let Some(bg) = self.background_color {
                let full_area = Rectangle::new(Point::new(cx, top_y), Size::new(advance * s, font.char_height * s));
                ops.push(DrawOp::FillSolid { area: full_area, color: bg });
                if bbox_w > 0 && bbox_h > 0 {
                    let tight_area = Rectangle::new(
                        Point::new(cx + (bbox_xo * s) as i32, top_y + (bbox_yo * s) as i32),
                        Size::new(bbox_w * s, bbox_h * s),
                    );
                    let colors = glyph_colors(font, pal, cell_gx + bbox_xo, cell_gy + bbox_yo, bbox_w, bbox_h, s);
                    ops.push(DrawOp::FillContiguous { area: tight_area, colors });
                }
                assert(ops_view(ops@) =~= glyph_ops(*self, gpal, idx, cx, top_y));
            } else {
                if bbox_w > 0 && bbox_h > 0 {
                    ops = glyph_pixel_ops(font, pal, cell_gx, cell_gy, bbox_xo, bbox_yo, bbox_w, bbox_h, cx, top_y, s);
                } else {
                    assert(ops_view(ops@) =~= Seq::empty());
                }
            }
        } else if let Some(bg) = self.background_color {
            ops.push(DrawOp::FillSolid {
                area: Rectangle::new(Point::new(cx, top_y), Size::new(advance * s, self.effective_height())),
                color: bg,
            });
            assert(ops_view(ops@) =~= glyph_ops(*self, gpal, idx, cx, top_y));
        } else {
            assert(ops_view(ops@) =~= Seq::empty());
        }
        ops
    }

    /// The operations that draw `text` with its position on `baseline`, and
    /// the position where the next string would start.
    pub fn draw_string(&self, text: &str, position: Point, baseline: Baseline) -> (r: (Vec<DrawOp>, Point))
        requires
            draw_string_ok(*self, text@, position, baseline),
        ensures
            ops_view(r.0@) == draw_state(*self, text@, line_top(*self, position, baseline), palette_of(*self)).0,
            r.1 == (Point {
                x: draw_state(*self, text@, line_top(*self, position, baseline), palette_of(*self)).1 as i32,
                y: position.y,
            }),
    {
        let s = self.scale;
        let font = self.font;
        let top = Point::new(position.x, position.y - self.baseline_offset(baseline));
        let ghost top_spec = line_top(*self, position, baseline);
        assert(top == top_spec);
        let mut cx = top.x;
        let fg888 = match self.text_color {
            Some(c) => Some(rgb565_to_rgb888(c)),
            None => None,
        };
        let bg888 = match self.background_color {
            Some(c) => Some(rgb565_to_rgb888(c)),
            None => None,
        };
        let palette: Option<Vec<Rgb565>> = match fg888 {
            Some(fg) => Some(build_palette(fg, bg888)),
            None => None,
        };
        let ghost pal = palette_of(*self);
        assert(pal == match palette { Some(p) => Some(p@), None => None });
        let mut ops: Vec<DrawOp> = Vec::new();
        let mut prev_idx: Option<u32> = None;
        for ch in it: text.chars()
            invariant
                it.seq() == text@,
                it.index() <= text@.len(),
                font == self.font,
                s == self.scale,
                top == top_spec,
                pal == palette_of(*self),
                pal == match palette { Some(p) => Some(p@), None => None },
                palette matches Some(p) ==> p@.len() == PALETTE_SIZE,
                draw_ok(*self, text@, top, pal),
                (ops_view(ops@), cx as int, prev_idx) == draw_state(*self, text@.take(it.index() as int), top, pal),
        {
            let ghost pre = text@.take(it.index() as int);
            let ghost cur = text@.take(it.index() + 1);
            assert(cur.drop_last() == pre);
            proof {
                lemma_draw_ok_prefix(*self, text@, top, pal, it.index() + 1);
            }
            let ghost before = ops@;
            let code = ch as u8;
            if code < font.first_char || code > font.last_char {
                let w = font.char_width * s;
                if let Some(bg) = self.background_color {
                    ops.push(DrawOp::FillSolid {
                        area: Rectangle::new(Point::new(cx, top.y), Size::new(w, self.effective_height())),
                        color: bg,
                    });
                }
                assert(ops_view(ops@) =~= ops_view(before) + bg_fill(*self, cx, top.y, w, line_height_of(*self) as u32));
                cx += w as i32;
                prev_idx = None;
            } else {
                let idx = (code - font.first_char) as u32;
                if let Some(pi) = prev_idx {
                    cx += font.kern(pi, idx) * s as i32;
                }
                prev_idx = Some(idx);
                let glyph = self.draw_glyph(&palette, idx, cx, top.y);
                let mut glyph = glyph;
                ops.append(&mut glyph);
                assert(ops_view(ops@) =~= ops_view(before) + glyph_ops(*self, pal, idx, cx, top.y));
                let advance = font.advance_width(idx);
                cx += (advance * s) as i32;
            }
        }
        assert(text@.take(text@.len() as int) == text@);
        (ops, Point::new(cx, position.y))
    }

    /// The operations that draw `width` pixels of whitespace at `position`
    /// (a background fill, if there is a background), and the position after it.
    pub fn draw_whitespace(&self, width: u32, position: Point, baseline: Baseline) -> (r: (Vec<DrawOp>, Point))
        requires
            baseline_ok(*self, baseline),
            i32::MIN <= position.y - baseline_offset_of(*self, baseline) <= i32::MAX,
            i32::MIN <= position.x + (width as i32) <= i32::MAX,
        ensures
            ops_view(r.0@) == if width > 0 {
                bg_fill(*self, position.x, line_top(*self, position, baseline).y, width, line_height_of(*self) as u32)
            } else {
                Seq::empty()
            },
            r.1 == (Point { x: (position.x + (width as i32)) as i32, y: position.y }),
    {
        let top = Point::new(position.x, position.y - self.baseline_offset(baseline));
        let mut ops: Vec<DrawOp> = Vec::new();
        if width > 0 {
            if let Some(bg) = self.background_color {
                ops.push(DrawOp::FillSolid {
                    area: Rectangle::new(top, Size::new(width, self.effective_height())),
                    color: bg,
                });
            }
        }
        assert(ops_view(ops@) =~= if width > 0 {
            bg_fill(*self, position.x, line_top(*self, position, baseline).y, width, line_height_of(*self) as u32)
        } else {
            Seq::empty()
        });
        (ops, Point::new(position.x + width as i32, position.y))
    }
}

} // verus!

verus! {

/// Law: drawing glyph `idx` reads its own cell of the atlas. The cells are
/// `char_width` by `char_height`, `cols_per_row` to an atlas row, glyph
/// `idx` in cell row `idx / cols_per_row` and cell column
/// `idx % cols_per_row` (as the atlas is composed); pixel `(row, col)` of
/// the glyph's box is read at atlas row `cell row + y_off + row` and atlas
/// column `cell column + x_off + col`, which lie inside that cell whenever
/// the box does. Both ways of drawing (a contiguous fill over a background,
/// or pixel by pixel) read from there.
pub proof fn lemma_glyph_reads_own_cell(
    style: MicroFontStyle,
    pal: Option<Seq<Rgb565>>,
    idx: u32,
    cx: i32,
    top_y: i32,
    row: int,
    col: int,
)
    requires
        style.font.cols_per_row > 0,
        style.font.cols_per_row * style.font.char_width <= style.font.strip_width,
        ({
            let (bxo, byo, bw, bh) = bbox_of(*style.font, idx);
            &&& bxo + bw <= style.font.char_width
            &&& byo + bh <= style.font.char_height
            &&& 0 <= row < bh
            &&& 0 <= col < bw
        }),
    ensures
        ({
            let font = *style.font;
            let sw = font.strip_width as int;
            let (bxo, byo, bw, bh) = bbox_of(font, idx);
            let cell_row = (idx / font.cols_per_row) * font.char_height;
            let cell_col = (idx % font.cols_per_row) * font.char_width;
            let gx = cell_col + bxo;
            let gy = cell_row + byo;
            let q = atlas_index(font, gx, gy, row, col);
            &&& q / sw == cell_row + byo + row
            &&& q % sw == cell_col + bxo + col
            &&& cell_row <= q / sw < cell_row + font.char_height
            &&& cell_col <= q % sw < cell_col + font.char_width
            &&& pal matches Some(p) ==> {
                &&& style.background_color is Some ==> (glyph_ops(style, pal, idx, cx, top_y).last() matches DrawOpView::FillContiguous { colors, .. }
                    && colors == glyph_color_seq(font, p, gx, gy, bw, bh, style.scale))
                &&& style.background_color is None ==> glyph_ops(style, pal, idx, cx, top_y)
                    == pixel_ops_prefix(font, p, gx, gy, bxo, byo, bw, cx, top_y, style.scale, bw * bh)
            }
        }),
{
    let font = *style.font;
    let sw = font.strip_width as int;
    let cpr = font.cols_per_row as int;
    let cw = font.char_width as int;
    let (bxo, byo, bw, bh) = bbox_of(font, idx);
    let cell_row = (idx / font.cols_per_row) * font.char_height;
    let cell_col = (idx % font.cols_per_row) * font.char_width;
    let m = (idx % font.cols_per_row) as int;
    assert(0 <= m < cpr);
    assert(cell_col + cw <= cpr * cw) by (nonlinear_arith)
        requires cell_col == m * cw, 0 <= m < cpr, cw >= 0;
    let x = cell_col + bxo + col;
    let y = cell_row + byo + row;
    assert(0 <= x < sw);
    let a = (idx / font.cols_per_row) as int;
    assert(0 <= a * font.char_height) by (nonlinear_arith)
        requires a >= 0;
    assert(cell_row == a * font.char_height);
    let q = atlas_index(font, cell_col + bxo, cell_row + byo, row, col);
    assert(q == y * sw + x);
    vstd::arithmetic::div_mod::lemma_fundamental_div_mod_converse(q, sw, y, x);
    if bw > 0 && bh > 0 {
        if let Some(p) = pal {
            if style.background_color is Some {
                let ops = glyph_ops(style, pal, idx, cx, top_y);
                assert(ops.last() matches DrawOpView::FillContiguous { colors, .. }
                    && colors == glyph_color_seq(font, p, cell_col + bxo, cell_row + byo, bw, bh, style.scale));
            }
        }
    }
}

/// Whether each kerning adjustment applied while measuring `s` keeps the
/// running (unscaled) width at or above zero, so that measuring never clamps
/// it. Fonts without kerning always do.
pub open spec fn kerning_stays_nonnegative(font: MicroFont, s: Seq<char>) -> bool
    decreases s.len(),
{
    if s.len() == 0 {
        true
    } else {
        let (w, prev) = crate::fonts::style::width_state(font, s.drop_last());
        let code = s.last() as u8;
        &&& kerning_stays_nonnegative(font, s.drop_last())
        &&& (in_font(font, code) && prev is Some) ==> w + kern_of(font, prev->0, glyph_index(font, code)) >= 0
    }
}

/// Law: drawing a string moves the pen by exactly the width that measuring
/// it gives, kerning included, as long as no kerning adjustment takes the
/// running width below zero (where measuring clamps and drawing does not)
/// and the scaled width of every prefix fits in an `i32`.
pub proof fn lemma_draw_advance_is_width(style: MicroFontStyle, s: Seq<char>, top: Point, pal: Option<Seq<Rgb565>>)
    requires
        crate::fonts::style::width_ok(*style.font, s),
        kerning_stays_nonnegative(*style.font, s),
        forall|k: int| 0 <= k <= s.len() ==> #[trigger] crate::fonts::style::width_state(*style.font, s.take(k)).0 * style.scale <= i32::MAX,
    ensures
        draw_state(style, s, top, pal).1 == top.x + crate::fonts::style::width_state(*style.font, s).0 * style.scale,
        draw_state(style, s, top, pal).2 == crate::fonts::style::width_state(*style.font, s).1,
    decreases s.len(),
{
    let font = *style.font;
    let sc = style.scale;
    if s.len() == 0 {
        assert(0 * sc == 0) by (nonlinear_arith);
    } else {
        let p = s.drop_last();
        assert forall|k: int| 0 <= k <= p.len() implies #[trigger] crate::fonts::style::width_state(font, p.take(k)).0 * sc <= i32::MAX by {
            assert(p.take(k) == s.take(k));
        }
        assert(s.take(s.len() as int) == s);
        assert(s.take(p.len() as int) == p);
        let (w, prev) = crate::fonts::style::width_state(font, p);
        let w_all = crate::fonts::style::width_state(font, s).0;
        crate::fonts::style::lemma_width_state_bounds(font, p);
        crate::fonts::style::lemma_width_state_bounds(font, s);
        assert(crate::fonts::style::width_ok(font, p));
        lemma_draw_advance_is_width(style, p, top, pal);
        let cx = draw_state(style, p, top, pal).1;
        assert(cx == top.x + w * sc);
        assert(w * sc <= i32::MAX);
        assert(w_all * sc <= i32::MAX);
        let code = s.last() as u8;
        if sc == 0 {
            assert(w * sc == 0 && w_all * sc == 0) by (nonlinear_arith) requires sc == 0;
            if !in_font(font, code) {
                assert(font.char_width * sc == 0) by (nonlinear_arith) requires sc == 0;
            } else {
                let idx = glyph_index(font, code);
                assert(advance_of(font, idx) * sc == 0) by (nonlinear_arith) requires sc == 0;
                if let Some(pi) = prev {
                    assert(kern_of(font, pi, idx) * (sc as i32) == 0) by (nonlinear_arith) requires sc == 0;
                }
            }
        } else {
            assert(w <= w * sc) by (nonlinear_arith) requires w >= 0, sc >= 1;
            if !in_font(font, code) {
                let step = font.char_width as int;
                assert(w_all == w + step);
                assert(w_all * sc == w * sc + step * sc) by (nonlinear_arith) requires w_all == w + step;
                assert(0 <= step * sc) by (nonlinear_arith) requires step >= 0, sc >= 1;
            } else {
                let idx = glyph_index(font, code);
                let adv = advance_of(font, idx) as int;
                match prev {
                    None => {
                        assert(w_all == w + adv);
                        assert(w_all * sc == w * sc + adv * sc) by (nonlinear_arith) requires w_all == w + adv;
                        assert(0 <= adv * sc) by (nonlinear_arith) requires adv >= 0, sc >= 1;
                    },
                    Some(pi) => {
                        let k = kern_of(font, pi, idx) as int;
                        assert(w + k >= 0);
                        assert((w as u32 as i32) == w);
                        assert(w_all == w + k + adv);
                        if sc > i32::MAX {
                            assert(w == 0 && w_all == 0) by (nonlinear_arith)
                                requires w * sc <= i32::MAX, w_all * sc <= i32::MAX, sc > i32::MAX, w >= 0, w_all >= 0;
                            assert(k == 0 && adv == 0);
                            let kk = kern_of(font, pi, idx) as int;
                            let si = (sc as i32) as int;
                            assert(kk * si == 0) by (nonlinear_arith)
                                requires kk == 0;
                            assert(advance_of(font, idx) * sc == 0);
                        } else {
                            assert((sc as i32) == sc);
                            assert(w_all * sc == w * sc + k * sc + adv * sc) by (nonlinear_arith) requires w_all == w + k + adv;
                            assert(0 <= adv * sc <= w_all * sc) by (nonlinear_arith)
                                requires adv >= 0, sc >= 1, w + k >= 0, w_all == w + k + adv;
                        }
                    },
                }
            }
        }
    }
}

/// Law: where measuring says the next string starts is where drawing the
/// string leaves the pen, for every baseline and color setting, under the
/// conditions of `lemma_draw_advance_is_width`.
pub proof fn lemma_draw_ends_where_measured(style: MicroFontStyle, s: Seq<char>, position: Point, baseline: Baseline)
    requires
        crate::fonts::style::measure_ok(style, s, position, baseline),
        kerning_stays_nonnegative(*style.font, s),
        forall|k: int| 0 <= k <= s.len() ==> #[trigger] crate::fonts::style::width_state(*style.font, s.take(k)).0 * style.scale <= i32::MAX,
    ensures
        draw_state(style, s, line_top(style, position, baseline), palette_of(style)).1
            == crate::fonts::style::metrics_of(style, s, position, baseline).next_position.x,
{
    let top = line_top(style, position, baseline);
    lemma_draw_advance_is_width(style, s, top, palette_of(style));
    assert(s.take(s.len() as int) == s);
    let w = crate::fonts::style::string_width_of(style, s);
    assert(0 <= w <= i32::MAX) by {
        crate::fonts::style::lemma_width_state_bounds(*style.font, s);
        let ws = crate::fonts::style::width_state(*style.font, s).0;
        assert(0 <= ws * style.scale) by (nonlinear_arith) requires ws >= 0;
    }
    assert((w as u32 as i32) == w);
}

} // verus!
