//! Tight bounding boxes: for each glyph, the smallest rectangle of its cell
//! that holds all of its non-zero coverage.

use vstd::prelude::*;
use crate::fonts::atlas::{GlyphRaster, x_offset, y_offset};

verus! {

/// The smallest box `(min_col, min_row, max_col, max_row)` holding the
/// non-zero bytes among the first `k` bytes of a row-major bitmap `w` wide,
/// or `None` when they are all zero.
pub open spec fn coverage_box(bm: Seq<u8>, w: int, k: int) -> Option<(int, int, int, int)>
    decreases k,
{
    if k <= 0 {
        None
    } else {
        let prev = coverage_box(bm, w, k - 1);
        let i = k - 1;
        if bm[i] == 0 {
            prev
        } else {
            let c = i % w;
            let r = i / w;
            match prev {
                None => Some((c, r, c, r)),
                Some((c0, r0, c1, r1)) => Some((
                    if c < c0 { c } else { c0 },
                    if r < r0 { r } else { r0 },
                    if c > c1 { c } else { c1 },
                    if r > r1 { r } else { r1 },
                )),
            }
        }
    }
}

/// The tight box `[x_off, y_off, w, h]` of glyph `g` in a `cw` by `ch` cell:
/// its coverage box moved to where the glyph sits in the cell and cut to the
/// cell; all zero when nothing of the glyph shows in the cell.
pub open spec fn glyph_box(g: GlyphRaster, ascent: i32, cw: u32, ch: u32) -> Seq<u8> {
    match coverage_box(g.bitmap@, g.width as int, g.width * g.height) {
        None => seq![0u8, 0u8, 0u8, 0u8],
        Some((c0, r0, c1, r1)) => {
            let x0 = x_offset(g) + c0;
            let y0 = y_offset(g, ascent) + r0;
            let x1 = if x_offset(g) + c1 + 1 < cw { x_offset(g) + c1 + 1 } else { cw as int };
            let y1 = if y_offset(g, ascent) + r1 + 1 < ch { y_offset(g, ascent) + r1 + 1 } else { ch as int };
            if x0 >= x1 || y0 >= y1 {
                seq![0u8, 0u8, 0u8, 0u8]
            } else {
                seq![x0 as u8, y0 as u8, (x1 - x0) as u8, (y1 - y0) as u8]
            }
        },
    }
}

/// The boxes of the first `k` glyphs, four bytes each.
pub open spec fn boxes_of(glyphs: Seq<GlyphRaster>, ascent: i32, cw: u32, ch: u32, k: int) -> Seq<u8>
    decreases k,
{
    if k <= 0 {
        Seq::empty()
    } else {
        boxes_of(glyphs, ascent, cw, ch, k - 1) + glyph_box(glyphs[k - 1], ascent, cw, ch)
    }
}

/// The bounding box table of a font: a box per glyph when the cell's sides
/// fit in a byte, else no table (each glyph then takes its whole cell).
pub open spec fn box_table(glyphs: Seq<GlyphRaster>, ascent: i32, cw: u32, ch: u32) -> Seq<u8> {
    if cw <= 255 && ch <= 255 {
        boxes_of(glyphs, ascent, cw, ch, glyphs.len() as int)
    } else {
        Seq::empty()
    }
}

/// What a glyph needs for its box to be computed within machine integers.
pub open spec fn glyph_box_ok(g: GlyphRaster, ascent: i32) -> bool {
    &&& g.width <= u32::MAX
    &&& g.height <= u32::MAX
    &&& g.bitmap@.len() >= g.width * g.height
    &&& i32::MIN <= g.ymin + (g.height as i32) <= i32::MAX
    &&& i32::MIN <= ascent - (g.ymin + (g.height as i32)) <= i32::MAX
}

/// Law: the coverage box holds every non-zero byte among the first `k`,
/// and each of its sides is reached by one of them.
pub proof fn lemma_coverage_box_is_tight(bm: Seq<u8>, w: int, k: int)
    requires
        w > 0,
        0 <= k <= bm.len(),
    ensures
        coverage_box(bm, w, k) matches Some((c0, r0, c1, r1)) ==> {
            &&& forall|i: int| 0 <= i < k && bm[i] != 0 ==> c0 <= i % w <= c1 && r0 <= i / w <= r1
            &&& exists|i: int| 0 <= i < k && bm[i] != 0 && i % w == c0
            &&& exists|i: int| 0 <= i < k && bm[i] != 0 && i / w == r0
            &&& exists|i: int| 0 <= i < k && bm[i] != 0 && i % w == c1
            &&& exists|i: int| 0 <= i < k && bm[i] != 0 && i / w == r1
        },
        coverage_box(bm, w, k) is None ==> forall|i: int| 0 <= i < k ==> bm[i] == 0,
    decreases k,
{
    if k > 0 {
        lemma_coverage_box_is_tight(bm, w, k - 1);
    }
}

/// The four bytes of glyph `j` sit at `4 * j` in the table of `k` glyphs.
pub proof fn lemma_boxes_of_index(glyphs: Seq<GlyphRaster>, ascent: i32, cw: u32, ch: u32, k: int, j: int)
    requires
        0 <= j < k,
    ensures
        boxes_of(glyphs, ascent, cw, ch, k).len() == 4 * k,
        boxes_of(glyphs, ascent, cw, ch, k).subrange(4 * j, 4 * j + 4) == glyph_box(glyphs[j], ascent, cw, ch),
    decreases k,
{
    lemma_boxes_len(glyphs, ascent, cw, ch, k);
    let prev = boxes_of(glyphs, ascent, cw, ch, k - 1);
    lemma_boxes_len(glyphs, ascent, cw, ch, k - 1);
    if j < k - 1 {
        lemma_boxes_of_index(glyphs, ascent, cw, ch, k - 1, j);
        assert(boxes_of(glyphs, ascent, cw, ch, k).subrange(4 * j, 4 * j + 4) =~= prev.subrange(4 * j, 4 * j + 4));
    } else {
        assert(boxes_of(glyphs, ascent, cw, ch, k).subrange(4 * j, 4 * j + 4) =~= glyph_box(glyphs[j], ascent, cw, ch));
    }
}

/// A table of `k` glyphs has four bytes per glyph.
pub proof fn lemma_boxes_len(glyphs: Seq<GlyphRaster>, ascent: i32, cw: u32, ch: u32, k: int)
    ensures
        k >= 0 ==> boxes_of(glyphs, ascent, cw, ch, k).len() == 4 * k,
    decreases k,
{
    if k > 0 {
        lemma_boxes_len(glyphs, ascent, cw, ch, k - 1);
    }
}

/// The tight box of one glyph.
fn glyph_box_of(g: &GlyphRaster, ascent: i32, cw: u32, ch: u32) -> (b: (u8, u8, u8, u8))
    requires
        glyph_box_ok(*g, ascent),
        cw <= 255,
        ch <= 255,
    ensures
        seq![b.0, b.1, b.2, b.3] == glyph_box(*g, ascent, cw, ch),
{
    let w = g.width;
    let h = g.height;
    let ghost bm = g.bitmap@;
    let blen = g.bitmap.len();
    assert(w * h <= blen);
    let total = w * h;
    let mut found: Option<(usize, usize, usize, usize)> = None;
    let mut i: usize = 0;
    while i < total
        invariant
            total == w * h,
            total <= bm.len(),
            bm == g.bitmap@,
            w == g.width,
            0 <= i <= total,
            found is Some ==> w > 0,
            match found {
                None => coverage_box(bm, w as int, i as int) is None,
                Some((c0, r0, c1, r1)) => coverage_box(bm, w as int, i as int) == Some(
                    (c0 as int, r0 as int, c1 as int, r1 as int),
                ),
            },
        decreases total - i,
    {
        if g.bitmap[i] != 0 {
            assert(w > 0) by (nonlinear_arith)
                requires i < total, total == w * h;
            let c = i % w;
            let r = i / w;
            found = match found {
                None => Some((c, r, c, r)),
                Some((c0, r0, c1, r1)) => Some((
                    if c < c0 { c } else { c0 },
                    if r < r0 { r } else { r0 },
                    if c > c1 { c } else { c1 },
                    if r > r1 { r } else { r1 },
                )),
            };
        }
        i = i + 1;
    }
    match found {
        None => (0, 0, 0, 0),
        Some((c0, r0, c1, r1)) => {
            proof {
                lemma_coverage_box_is_tight(bm, w as int, total as int);
            }
            let ox: u64 = if g.xmin >= 0 { g.xmin as u64 } else { 0 };
            let v = ascent - (g.ymin + g.height as i32);
            let oy: u64 = if v >= 0 { v as u64 } else { 0 };
            assert(ox == x_offset(*g));
            assert(oy == y_offset(*g, ascent));
            assert(c1 < w && r1 < h) by {
                let ghost j = choose|j: int| 0 <= j < total && bm[j] != 0 && j % (w as int) == c1;
                let ghost j2 = choose|j: int| 0 <= j < total && bm[j] != 0 && j / (w as int) == r1;
                assert(j2 / (w as int) < h as int) by (nonlinear_arith)
                    requires 0 <= j2 < total, total == w * h, w > 0;
            }
            assert(c0 <= c1 && r0 <= r1) by {
                let ghost j = choose|j: int| 0 <= j < total && bm[j] != 0 && j % (w as int) == c1;
                assert(c0 <= j % (w as int) <= c1);
                let ghost j2 = choose|j: int| 0 <= j < total && bm[j] != 0 && j / (w as int) == r1;
                assert(r0 <= j2 / (w as int) <= r1);
            }
            let x0 = ox + c0 as u64;
            let y0 = oy + r0 as u64;
            let x1 = if ox + c1 as u64 + 1 < cw as u64 { ox + c1 as u64 + 1 } else { cw as u64 };
            let y1 = if oy + r1 as u64 + 1 < ch as u64 { oy + r1 as u64 + 1 } else { ch as u64 };
            if x0 >= x1 || y0 >= y1 {
                (0, 0, 0, 0)
            } else {
                (x0 as u8, y0 as u8, (x1 - x0) as u8, (y1 - y0) as u8)
            }
        },
    }
}

/// The bounding box table of `glyphs` in `cw` by `ch` cells.
pub fn box_table_of(glyphs: &Vec<GlyphRaster>, ascent: i32, cw: u32, ch: u32) -> (t: Vec<u8>)
    requires
        forall|k: int| 0 <= k < glyphs@.len() ==> glyph_box_ok(#[trigger] glyphs@[k], ascent),
    ensures
        t@ == box_table(glyphs@, ascent, cw, ch),
{
    let mut t: Vec<u8> = Vec::new();
    if cw > 255 || ch > 255 {
        return t;
    }
    let mut k: usize = 0;
    while k < glyphs.len()
        invariant
            cw <= 255,
            ch <= 255,
            0 <= k <= glyphs@.len(),
            forall|j: int| 0 <= j < glyphs@.len() ==> glyph_box_ok(#[trigger] glyphs@[j], ascent),
            t@ == boxes_of(glyphs@, ascent, cw, ch, k as int),
        decreases glyphs@.len() - k,
    {
        let b = glyph_box_of(&glyphs[k], ascent, cw, ch);
        let ghost before = t@;
        t.push(b.0);
        t.push(b.1);
        t.push(b.2);
        t.push(b.3);
        assert(t@ =~= before + seq![b.0, b.1, b.2, b.3]);
        k = k + 1;
    }
    t
}

} // verus!
