//! Composing rasterized glyphs into a font atlas: a grid of equal cells,
//! sixteen per row, each glyph placed on a common baseline.

use vstd::prelude::*;
use crate::fonts::pack::{pack_pixels, packed};
use crate::fonts::font::{MicroFont, bbox_of, kern_of};
use crate::fonts::glyph_box::{box_table, box_table_of, glyph_box, lemma_boxes_of_index};
use crate::fonts::kerning::{KernPair, kern_table, kerning_table, first_adjust, lemma_table_finds_first};

verus! {

/// Cells per atlas row.
pub const COLS_PER_ROW: u32 = 16;

/// One rasterized glyph: its 8-bit coverage bitmap, row-major, and where the
/// bitmap sits relative to the glyph origin.
#[derive(Clone, Debug)]
pub struct GlyphRaster {
    /// Left edge of the bitmap relative to the origin.
    pub xmin: i32,
    /// Bottom edge of the bitmap relative to the baseline.
    pub ymin: i32,
    pub width: usize,
    pub height: usize,
    /// The advance width, rounded up to whole pixels.
    pub advance: u32,
    pub bitmap: Vec<u8>,
}

/// A composed atlas and its metrics.
#[derive(Clone, Debug)]
pub struct RasterizedFont {
    /// The atlas packed at the requested bit depth.
    pub packed: Vec<u8>,
    pub cell_width: u32,
    pub cell_height: u32,
    pub cols_per_row: u32,
    pub strip_width: u32,
    /// Advance widths, each clamped to `1..=255`.
    pub glyph_widths: Vec<u8>,
    /// Whether the advance widths differ.
    pub is_proportional: bool,
    /// Tight bounding boxes, four bytes per glyph, or none.
    pub bboxes: Vec<u8>,
    /// Kerning triples, or `None`.
    pub kerning: Option<Vec<u8>>,
}

/// The widest extent of the first `k` glyphs: the larger of advance and
/// bitmap width, at least 0.
pub open spec fn widest(glyphs: Seq<GlyphRaster>, k: int) -> u32
    decreases k,
{
    if k <= 0 {
        0
    } else {
        let g = glyphs[k - 1];
        let e = if g.advance >= g.width as u32 { g.advance } else { g.width as u32 };
        let m = widest(glyphs, k - 1);
        if e >= m { e } else { m }
    }
}

/// The atlas cell width: the widest glyph extent, at least 1.
pub open spec fn cell_width_of(glyphs: Seq<GlyphRaster>) -> u32 {
    let m = widest(glyphs, glyphs.len() as int);
    if m >= 1 { m } else { 1 }
}

/// The atlas cell height: ascent plus descent, at least 1.
pub open spec fn cell_height_of(ascent: i32, descent: i32) -> u32 {
    let s = ascent + descent;
    (if s >= 1 { s } else { 1 }) as u32
}

/// How far right of its cell's left edge a glyph bitmap starts.
pub open spec fn x_offset(g: GlyphRaster) -> int {
    if g.xmin >= 0 { g.xmin as int } else { 0 }
}

/// How far below its cell's top a glyph bitmap starts, so that baselines
/// line up `ascent` pixels down.
pub open spec fn y_offset(g: GlyphRaster, ascent: i32) -> int {
    let v = ascent - (g.ymin + (g.height as i32));
    if v >= 0 { v } else { 0 }
}

/// The atlas after placing glyph `g` as glyph `idx`, for the pixels whose
/// source position `(row, col)` satisfies `done(row, col)`: such an atlas
/// pixel takes the glyph's coverage, every other one keeps its value.
pub open spec fn place_where(
    bm: Seq<u8>,
    g: GlyphRaster,
    idx: int,
    sw: u32,
    cw: u32,
    ch: u32,
    ascent: i32,
    r0: int,
    c0: int,
) -> Seq<u8> {
    Seq::new(
        bm.len(),
        |i: int| {
            let dx = i % (sw as int);
            let dy = i / (sw as int);
            let row = dy - (idx / 16) * ch - y_offset(g, ascent);
            let col = dx - (idx % 16) * cw - x_offset(g);
            if 0 <= row < g.height && 0 <= col < g.width && (row < r0 || (row == r0 && col < c0)) {
                g.bitmap@[row * g.width + col]
            } else {
                bm[i]
            }
        },
    )
}

/// The atlas after placing the first `k` glyphs, each in its cell, later
/// glyphs over earlier ones.
pub open spec fn placed(glyphs: Seq<GlyphRaster>, k: int, sw: u32, sh: u32, cw: u32, ch: u32, ascent: i32) -> Seq<u8>
    decreases k,
{
    if k <= 0 {
        Seq::new((sw * sh) as nat, |i: int| 0u8)
    } else {
        let g = glyphs[k - 1];
        place_where(placed(glyphs, k - 1, sw, sh, cw, ch, ascent), g, k - 1, sw, cw, ch, ascent, g.height as int, 0)
    }
}

/// A glyph's advance clamped to `1..=255`.
pub open spec fn clamped_advance(a: u32) -> u8 {
    (if a < 1 { 1 } else if a > 255 { 255 } else { a }) as u8
}

/// Whether composing the atlas stays within machine integers and reads only
/// bitmap pixels that exist.
pub open spec fn compose_ok(glyphs: Seq<GlyphRaster>, ascent: i32, descent: i32) -> bool {
    let n = glyphs.len() as int;
    let cw = cell_width_of(glyphs);
    let ch = cell_height_of(ascent, descent);
    let rows = (n + 15) / 16;
    &&& n + 15 <= u32::MAX
    &&& i32::MIN <= ascent + descent <= i32::MAX
    &&& cw * 16 <= u32::MAX
    &&& ch * rows <= u32::MAX
    &&& cw * 16 * ch * rows <= u32::MAX
    &&& forall|k: int| 0 <= k < n ==> {
        let g = #[trigger] glyphs[k];
        &&& g.width <= u32::MAX
        &&& g.height <= u32::MAX
        &&& g.bitmap@.len() >= g.width * g.height
        &&& i32::MIN <= g.ymin + (g.height as i32) <= i32::MAX
        &&& i32::MIN <= ascent - (g.ymin + (g.height as i32)) <= i32::MAX
        &&& (k / 16) * ch <= u32::MAX
        &&& (k % 16) * cw + x_offset(g) + g.width <= u32::MAX + 1
        &&& (k / 16) * ch + y_offset(g, ascent) + g.height <= u32::MAX + 1
    }
}

/// The smallest and largest clamped advance among the first `k` glyphs
/// (`u32::MAX` and 0 when there are none).
pub open spec fn advance_range(glyphs: Seq<GlyphRaster>, k: int) -> (u32, u32)
    decreases k,
{
    if k <= 0 {
        (u32::MAX, 0)
    } else {
        let (lo, hi) = advance_range(glyphs, k - 1);
        let a = clamped_advance(glyphs[k - 1].advance) as u32;
        (if a < lo { a } else { lo }, if a > hi { a } else { hi })
    }
}

proof fn lemma_widest_bounds(glyphs: Seq<GlyphRaster>, k: int)
    requires
        0 <= k <= glyphs.len(),
    ensures
        forall|j: int| 0 <= j < k ==> glyphs[j].advance <= widest(glyphs, k) && glyphs[j].width as u32 <= widest(glyphs, k),
    decreases k,
{
    if k > 0 {
        lemma_widest_bounds(glyphs, k - 1);
    }
}

proof fn lemma_place_where_start(bm: Seq<u8>, g: GlyphRaster, idx: int, sw: u32, cw: u32, ch: u32, ascent: i32)
    ensures
        place_where(bm, g, idx, sw, cw, ch, ascent, 0, 0) =~= bm,
{
}

proof fn lemma_place_where_next_row(bm: Seq<u8>, g: GlyphRaster, idx: int, sw: u32, cw: u32, ch: u32, ascent: i32, row: int)
    ensures
        place_where(bm, g, idx, sw, cw, ch, ascent, row, g.width as int)
            =~= place_where(bm, g, idx, sw, cw, ch, ascent, row + 1, 0),
{
}

/// Placing one more source pixel `(row, col)` writes it where it lands, if
/// it lands inside the atlas, and nowhere else.
proof fn lemma_place_where_step(
    bm: Seq<u8>,
    g: GlyphRaster,
    idx: int,
    sw: u32,
    sh: u32,
    cw: u32,
    ch: u32,
    ascent: i32,
    row: int,
    col: int,
    dx: int,
    dy: int,
)
    requires
        bm.len() == sw * sh,
        0 <= row < g.height,
        0 <= col < g.width,
        g.bitmap@.len() >= g.width * g.height,
        idx >= 0,
        dx == (idx % 16) * cw + x_offset(g) + col,
        dy == (idx / 16) * ch + y_offset(g, ascent) + row,
    ensures
        ({
            let prev = place_where(bm, g, idx, sw, cw, ch, ascent, row, col);
            let next = place_where(bm, g, idx, sw, cw, ch, ascent, row, col + 1);
            &&& 0 <= row * g.width + col < g.bitmap@.len()
            &&& dx < sw && dy < sh ==> 0 <= dy * sw + dx < sw * sh && 0 <= row * g.width + col < g.bitmap@.len()
                && next =~= prev.update(dy * sw + dx, g.bitmap@[row * g.width + col])
            &&& !(dx < sw && dy < sh) ==> next =~= prev
        }),
{
    let prev = place_where(bm, g, idx, sw, cw, ch, ascent, row, col);
    let next = place_where(bm, g, idx, sw, cw, ch, ascent, row, col + 1);
    assert(0 <= row * g.width + col < g.width * g.height) by (nonlinear_arith)
        requires 0 <= row < g.height, 0 <= col < g.width;
    assert(dx >= 0 && dy >= 0) by (nonlinear_arith)
        requires idx >= 0, dx == (idx % 16) * cw + x_offset(g) + col, dy == (idx / 16) * ch + y_offset(g, ascent) + row,
            x_offset(g) >= 0, y_offset(g, ascent) >= 0, col >= 0, row >= 0, cw >= 0, ch >= 0;
    if dx < sw && dy < sh {
        let t = dy * sw + dx;
        assert(0 <= t < sw * sh) by (nonlinear_arith) requires 0 <= dx < sw, 0 <= dy < sh, t == dy * sw + dx;
        vstd::arithmetic::div_mod::lemma_fundamental_div_mod_converse(t, sw as int, dy, dx);
        assert forall|i: int| 0 <= i < bm.len() implies next[i] == prev.update(t, g.bitmap@[row * g.width + col])[i] by {
            let dxi = i % (sw as int);
            let dyi = i / (sw as int);
            if dxi == dx && dyi == dy {
                vstd::arithmetic::div_mod::lemma_fundamental_div_mod(i, sw as int);
                assert(i == t) by (nonlinear_arith)
                    requires i == (sw as int) * dyi + dxi, dxi == dx, dyi == dy, t == dy * sw + dx;
            }
        }
    } else {
        assert forall|i: int| 0 <= i < bm.len() implies next[i] == prev[i] by {
            let dxi = i % (sw as int);
            let dyi = i / (sw as int);
            assert(0 <= dxi < sw) by (nonlinear_arith) requires sw > 0, dxi == i % (sw as int);
            assert(dyi < sh) by (nonlinear_arith) requires 0 <= i < sw * sh, sw > 0, dyi == i / (sw as int);
        }
    }
}

/// The condition `compose_ok` puts on glyph `k` of an atlas with `cw` by
/// `ch` cells.
pub open spec fn glyph_fits(g: GlyphRaster, k: int, ascent: i32, cw: u32, ch: u32) -> bool {
    &&& g.width <= u32::MAX
    &&& g.height <= u32::MAX
    &&& g.bitmap@.len() >= g.width * g.height
    &&& i32::MIN <= g.ymin + (g.height as i32) <= i32::MAX
    &&& i32::MIN <= ascent - (g.ymin + (g.height as i32)) <= i32::MAX
    &&& (k / 16) * ch <= u32::MAX
    &&& (k % 16) * cw + x_offset(g) + g.width <= u32::MAX + 1
    &&& (k / 16) * ch + y_offset(g, ascent) + g.height <= u32::MAX + 1
}

/// Whether glyph `k` fits, computed.
fn glyph_fits_at(g: &GlyphRaster, k: usize, ascent: i32, cw: u32, ch: u32) -> (ok: bool)
    requires
        k <= u32::MAX,
    ensures
        ok == glyph_fits(*g, k as int, ascent, cw, ch),
{
    let max: u128 = 0xFFFF_FFFF;
    if g.width as u128 > max || g.height as u128 > max {
        return false;
    }
    let w = g.width as u128;
    let h = g.height as u128;
    assert(w * h <= 0xFFFF_FFFF * 0xFFFF_FFFF) by (nonlinear_arith)
        requires w <= 0xFFFF_FFFF, h <= 0xFFFF_FFFF;
    if (g.bitmap.len() as u128) < w * h {
        return false;
    }
    let bottom = g.ymin as i64 + (g.height as i32) as i64;
    if bottom < i32::MIN as i64 || bottom > i32::MAX as i64 {
        return false;
    }
    let v = ascent as i64 - bottom;
    if v < i32::MIN as i64 || v > i32::MAX as i64 {
        return false;
    }
    let row = (k / 16) as u128;
    let col = (k % 16) as u128;
    assert(row * (ch as u128) <= 0xFFFF_FFFF * 0xFFFF_FFFF) by (nonlinear_arith)
        requires row <= 0xFFFF_FFFF, ch <= 0xFFFF_FFFF;
    assert(col * (cw as u128) <= 16 * 0xFFFF_FFFF) by (nonlinear_arith)
        requires col < 16, cw <= 0xFFFF_FFFF;
    let ox: u128 = if g.xmin >= 0 { g.xmin as u128 } else { 0 };
    let oy: u128 = if v >= 0 { v as u128 } else { 0 };
    assert(ox == x_offset(*g));
    assert(oy == y_offset(*g, ascent));
    row * (ch as u128) <= max
        && col * (cw as u128) + ox + w <= max + 1
        && row * (ch as u128) + oy + h <= max + 1
}

/// Whether `compose_atlas` can take `glyphs` with these line metrics.
pub fn compose_fits(glyphs: &Vec<GlyphRaster>, ascent: i32, descent: i32) -> (ok: bool)
    ensures
        ok == compose_ok(glyphs@, ascent, descent),
{
    let n = glyphs.len();
    let max: u128 = 0xFFFF_FFFF;
    if n as u128 + 15 > max {
        return false;
    }
    let mut widest_ext: u32 = 0;
    let mut i: usize = 0;
    while i < n
        invariant
            n == glyphs@.len(),
            0 <= i <= n,
            widest_ext == widest(glyphs@, i as int),
        decreases n - i,
    {
        let g = &glyphs[i];
        let e = if g.advance >= g.width as u32 { g.advance } else { g.width as u32 };
        widest_ext = if e >= widest_ext { e } else { widest_ext };
        i = i + 1;
    }
    let cw = if widest_ext >= 1 { widest_ext } else { 1 };
    assert(cw == cell_width_of(glyphs@));
    let sum = ascent as i64 + descent as i64;
    if sum < i32::MIN as i64 || sum > i32::MAX as i64 {
        return false;
    }
    let ch = (if sum >= 1 { sum } else { 1 }) as u32;
    assert(ch == cell_height_of(ascent, descent));
    let rows = (n as u128 + 15) / 16;
    assert(rows == (glyphs@.len() as int + 15) / 16);
    let cw16 = cw as u128 * 16;
    if cw16 > max {
        return false;
    }
    assert((ch as u128) * rows <= 0xFFFF_FFFF * 0xFFFF_FFFF) by (nonlinear_arith)
        requires ch <= 0xFFFF_FFFF, rows <= 0xFFFF_FFFF;
    if (ch as u128) * rows > max {
        return false;
    }
    let chr = (ch as u128) * rows;
    assert(cw16 * chr <= 0xFFFF_FFFF * 0xFFFF_FFFF) by (nonlinear_arith)
        requires cw16 <= 0xFFFF_FFFF, chr <= 0xFFFF_FFFF;
    assert(cw16 * chr == cw * 16 * ch * rows) by (nonlinear_arith)
        requires cw16 == cw * 16, chr == ch * rows;
    if cw16 * chr > max {
        assert(cw * 16 * ch * ((glyphs@.len() as int + 15) / 16) > u32::MAX);
        return false;
    }
    let mut k: usize = 0;
    while k < n
        invariant
            n == glyphs@.len(),
            n + 15 <= u32::MAX,
            cw == cell_width_of(glyphs@),
            ch == cell_height_of(ascent, descent),
            0 <= k <= n,
            forall|j: int| 0 <= j < k ==> glyph_fits(#[trigger] glyphs@[j], j, ascent, cw, ch),
        decreases n - k,
    {
        if !glyph_fits_at(&glyphs[k], k, ascent, cw, ch) {
            assert(!glyph_fits(glyphs@[k as int], k as int, ascent, cw, ch));
            return false;
        }
        k = k + 1;
    }
    assert(forall|j: int| 0 <= j < n ==> glyph_fits(#[trigger] glyphs@[j], j, ascent, cw, ch));
    true
}

/// Lay out rasterized glyphs into an atlas of `16`-wide rows of cells and
/// pack it at `bpp` bits per pixel.
///
/// `ascent` and `descent` are the font's line metrics rounded up, the
/// descent as a positive distance below the baseline.
pub fn compose_atlas(
    glyphs: &Vec<GlyphRaster>,
    ascent: i32,
    descent: i32,
    bpp: u8,
    kern_pairs: &Vec<KernPair>,
) -> (r: RasterizedFont)
    requires
        compose_ok(glyphs@, ascent, descent),
        1 <= bpp <= 8,
        5 <= bpp <= 7 ==> cell_width_of(glyphs@) * 16 * cell_height_of(ascent, descent) * ((glyphs@.len() + 15) / 16)
            < usize::MAX,
    ensures
        ({
            let n = glyphs@.len() as int;
            let cw = cell_width_of(glyphs@);
            let ch = cell_height_of(ascent, descent);
            let sw = (cw * 16) as u32;
            let sh = (ch * ((n + 15) / 16)) as u32;
            &&& r.cell_width == cw
            &&& r.cell_height == ch
            &&& r.cols_per_row == COLS_PER_ROW
            &&& r.strip_width == sw
            &&& r.packed@ == packed(placed(glyphs@, n, sw, sh, cw, ch, ascent), bpp)
            &&& r.glyph_widths@.len() == n
            &&& forall|k: int| 0 <= k < n ==> r.glyph_widths@[k] == clamped_advance(#[trigger] glyphs@[k].advance)
            &&& r.is_proportional == (advance_range(glyphs@, n).0 != advance_range(glyphs@, n).1)
            &&& r.bboxes@ == box_table(glyphs@, ascent, cw, ch)
            &&& match r.kerning {
                Some(k) => kern_table(kern_pairs@) == Some(k@),
                None => kern_table(kern_pairs@) is None,
            }
        }),
{
    let n = glyphs.len();
    let cols_per_row = COLS_PER_ROW;
    let mut widest_ext: u32 = 0;
    let mut i: usize = 0;
    while i < n
        invariant
            n == glyphs@.len(),
            0 <= i <= n,
            widest_ext == widest(glyphs@, i as int),
        decreases n - i,
    {
        let g = &glyphs[i];
        let e = if g.advance >= g.width as u32 { g.advance } else { g.width as u32 };
        widest_ext = if e >= widest_ext { e } else { widest_ext };
        i = i + 1;
    }
    let cell_width = if widest_ext >= 1 { widest_ext } else { 1 };
    let sum = ascent + descent;
    let cell_height = (if sum >= 1 { sum } else { 1 }) as u32;
    assert(cols_per_row == 16);
    assert(n + 15 <= u32::MAX);
    let n32 = n as u32;
    assert(n32 == n);
    let num_rows = (n32 + (cols_per_row - 1)) / cols_per_row;
    let strip_width = cell_width * cols_per_row;
    let strip_height = cell_height * num_rows;
    assert(strip_width * strip_height <= u32::MAX) by (nonlinear_arith)
        requires
            strip_width == cell_width * 16,
            strip_height == cell_height * num_rows,
            cell_width * 16 * cell_height * num_rows <= u32::MAX;
    let total = (strip_width * strip_height) as usize;
    let mut bitmap: Vec<u8> = Vec::with_capacity(total);
    let mut z: usize = 0;
    while z < total
        invariant
            0 <= z <= total,
            bitmap@.len() == z,
            forall|j: int| 0 <= j < z ==> bitmap@[j] == 0u8,
        decreases total - z,
    {
        bitmap.push(0);
        z = z + 1;
    }
    let ghost sw = strip_width;
    let ghost sh = strip_height;
    assert(bitmap@ =~= placed(glyphs@, 0, sw, sh, cell_width, cell_height, ascent));

    let mut glyph_widths: Vec<u8> = Vec::with_capacity(n);
    let mut min_adv: u32 = u32::MAX;
    let mut max_adv: u32 = 0;
    let mut idx: usize = 0;
    while idx < n
        invariant
            n == glyphs@.len(),
            0 <= idx <= n,
            cols_per_row == 16,
            compose_ok(glyphs@, ascent, descent),
            cell_width == cell_width_of(glyphs@),
            cell_height == cell_height_of(ascent, descent),
            strip_width == cell_width * 16,
            sw == strip_width,
            sh == strip_height,
            sw * sh <= u32::MAX,
            strip_height == sh,
            bitmap@.len() == sw * sh,
            bitmap@ == placed(glyphs@, idx as int, sw, sh, cell_width, cell_height, ascent),
            glyph_widths@.len() == idx,
            forall|k: int| 0 <= k < idx ==> glyph_widths@[k] == clamped_advance(#[trigger] glyphs@[k].advance),
            (min_adv, max_adv) == advance_range(glyphs@, idx as int),
        decreases n - idx,
    {
        let g = &glyphs[idx];
        assert(g == glyphs@[idx as int]);
        let ghost k = idx as int;
        assert(glyphs@[k].width <= u32::MAX);
        assert((k % 16) * cell_width <= u32::MAX) by (nonlinear_arith)
            requires cell_width * 16 <= u32::MAX, 0 <= k % 16 < 16, cell_width >= 0;
        let cell_x = (idx as u32 % cols_per_row) * cell_width;
        let cell_y = (idx as u32 / cols_per_row) * cell_height;
        let ox = (if g.xmin >= 0 { g.xmin } else { 0 }) as u32;
        let v = ascent - (g.ymin + g.height as i32);
        let oy = (if v >= 0 { v } else { 0 }) as u32;
        let ghost base = bitmap@;
        assert((k % 16) * cell_width + x_offset(*g) + g.width <= u32::MAX + 1);
        assert((k / 16) * cell_height + y_offset(*g, ascent) + g.height <= u32::MAX + 1);
        assert(cell_x == (k % 16) * cell_width);
        assert(cell_y == (k / 16) * cell_height);
        assert(ox == x_offset(*g));
        assert(oy == y_offset(*g, ascent));
        proof { lemma_place_where_start(base, *g, k, sw, cell_width, cell_height, ascent); }
        let mut row: usize = 0;
        while row < g.height
            invariant
                0 <= row <= g.height,
                g == glyphs@[idx as int],
                k == idx,
                compose_ok(glyphs@, ascent, descent),
                sw * sh <= u32::MAX,
                sw == strip_width,
                sh == strip_height,
                cell_x == (k % 16) * cell_width,
                cell_y == (k / 16) * cell_height,
                ox == x_offset(*g),
                oy == y_offset(*g, ascent),
                g.bitmap@.len() >= g.width * g.height,
                cell_x + ox + g.width <= u32::MAX + 1,
                cell_y + oy + g.height <= u32::MAX + 1,
                bitmap@.len() == sw * sh,
                bitmap@ == place_where(base, *g, idx as int, sw, cell_width, cell_height, ascent, row as int, 0),
            decreases g.height - row,
        {
            let mut col: usize = 0;
            while col < g.width
                invariant
                    0 <= row < g.height,
                    0 <= col <= g.width,
                    g == glyphs@[idx as int],
                    k == idx,
                    compose_ok(glyphs@, ascent, descent),
                    sw * sh <= u32::MAX,
                    sw == strip_width,
                    sh == strip_height,
                    cell_x == (k % 16) * cell_width,
                    cell_y == (k / 16) * cell_height,
                    ox == x_offset(*g),
                    oy == y_offset(*g, ascent),
                    g.bitmap@.len() >= g.width * g.height,
                    cell_x + ox + g.width <= u32::MAX + 1,
                    cell_y + oy + g.height <= u32::MAX + 1,
                    bitmap@.len() == sw * sh,
                    bitmap@ == place_where(base, *g, idx as int, sw, cell_width, cell_height, ascent, row as int, col as int),
                decreases g.width - col,
            {
                let dx = cell_x + ox + col as u32;
                let dy = cell_y + oy + row as u32;
                proof {
                    lemma_place_where_step(base, *g, k, sw, sh, cell_width, cell_height, ascent, row as int, col as int, dx as int, dy as int);
                }
                let blen = g.bitmap.len();
                assert(0 <= (row as int) * (g.width as int) + (col as int) < blen);
                assert(0 <= (row as int) * (g.width as int) <= (row as int) * (g.width as int) + (col as int));
                if dx < strip_width && dy < strip_height {
                    let src = g.bitmap[row * g.width + col];
                    bitmap.set((dy * strip_width + dx) as usize, src);
                }
                col = col + 1;
            }
            proof { lemma_place_where_next_row(base, *g, k, sw, cell_width, cell_height, ascent, row as int); }
            row = row + 1;
        }
        let adv0 = g.advance;
        let adv = if adv0 < 1 { 1 } else if adv0 > 255 { 255 } else { adv0 };
        glyph_widths.push(adv as u8);
        min_adv = if adv < min_adv { adv } else { min_adv };
        max_adv = if adv > max_adv { adv } else { max_adv };
        idx = idx + 1;
    }
    assert(num_rows == (glyphs@.len() + 15) / 16);
    assert(bitmap@.len() == cell_width * 16 * cell_height * num_rows) by (nonlinear_arith)
        requires
            bitmap@.len() == sw * sh,
            sw == cell_width * 16,
            sh == cell_height * num_rows;
    let bboxes = box_table_of(glyphs, ascent, cell_width, cell_height);
    let kerning = kerning_table(kern_pairs);
    RasterizedFont {
        packed: pack_pixels(bitmap.as_slice(), bpp),
        cell_width,
        cell_height,
        cols_per_row,
        strip_width,
        glyph_widths,
        is_proportional: min_adv != max_adv,
        bboxes,
        kerning,
    }
}

/// The font of a composed atlas covering the printable ASCII codes
/// `32..=126`: monospace when all advances agree, with the atlas's tight
/// bounding boxes and kerning table.
pub fn font_from_raster(r: RasterizedFont, bpp: u8) -> (f: MicroFont)
    ensures
        f.data@ == r.packed@,
        f.char_width == r.cell_width,
        f.char_height == r.cell_height,
        f.cols_per_row == r.cols_per_row,
        f.strip_width == r.strip_width,
        f.first_char == 32,
        f.last_char == 126,
        f.bpp == bpp,
        r.is_proportional ==> (f.widths matches Some(w) && w@ == r.glyph_widths@),
        !r.is_proportional ==> f.widths is None,
        f.bboxes@ == r.bboxes@,
        f.kerning == r.kerning,
{
    let widths = if r.is_proportional { Some(r.glyph_widths) } else { None };
    MicroFont {
        data: r.packed,
        char_width: r.cell_width,
        char_height: r.cell_height,
        cols_per_row: r.cols_per_row,
        strip_width: r.strip_width,
        first_char: 32,
        last_char: 126,
        bpp,
        widths,
        bboxes: r.bboxes,
        kerning: r.kerning,
    }
}

/// Law: in a font whose box table was composed from `glyphs`, and whose
/// cells fit in a byte, glyph `j`'s bounding box is the tight box of its
/// coverage.
pub proof fn lemma_font_boxes(f: MicroFont, glyphs: Seq<GlyphRaster>, ascent: i32, j: u32)
    requires
        f.bboxes@ == box_table(glyphs, ascent, f.char_width, f.char_height),
        f.char_width <= 255,
        f.char_height <= 255,
        j < glyphs.len(),
    ensures
        ({
            let (x, y, w, h) = bbox_of(f, j);
            seq![x as u8, y as u8, w as u8, h as u8] == glyph_box(glyphs[j as int], ascent, f.char_width, f.char_height)
        }),
{
    let cw = f.char_width;
    let ch = f.char_height;
    lemma_boxes_of_index(glyphs, ascent, cw, ch, glyphs.len() as int, j as int);
    let t = f.bboxes@;
    let b = glyph_box(glyphs[j as int], ascent, cw, ch);
    assert(t.subrange(4 * j, 4 * j + 4) == b);
    assert(t[4 * j] == b[0] && t[4 * j + 1] == b[1] && t[4 * j + 2] == b[2] && t[4 * j + 3] == b[3]);
    assert(seq![t[4 * j], t[4 * j + 1], t[4 * j + 2], t[4 * j + 3]] =~= b);
}

/// Law: in a font whose kerning table was built from `pairs`, the kerning
/// between glyphs `left` and `right` is the limited adjustment of the first
/// pair for them that is kept, and 0 when there is none.
pub proof fn lemma_font_kerning(f: MicroFont, pairs: Seq<KernPair>, left: u32, right: u32)
    requires
        match f.kerning {
            Some(k) => kern_table(pairs) == Some(k@),
            None => kern_table(pairs) is None,
        },
    ensures
        kern_of(f, left, right) == first_adjust(pairs, 0, left as u8, right as u8),
{
    lemma_table_finds_first(pairs, left as u8, right as u8);
}

} // verus!
