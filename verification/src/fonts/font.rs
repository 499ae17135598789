//! Bitmap fonts: glyph atlas, advance widths, tight bounding boxes, kerning
//! and anti-aliased alpha values at 1, 2, 4 or 8 bits per pixel.

use vstd::prelude::*;

verus! {

/// An anti-aliased bitmap font with configurable bit depth (1/2/4/8 bpp).
///
/// Glyphs for the codes `first_char..=last_char` sit in an atlas of cells
/// `char_width` by `char_height`, `cols_per_row` cells per row; a row of
/// the atlas is `strip_width` pixels wide.
#[derive(Clone, Debug)]
pub struct MicroFont {
    /// Packed alpha values of the atlas, row-major, most significant bits first.
    pub data: Vec<u8>,
    pub char_width: u32,
    pub char_height: u32,
    pub cols_per_row: u32,
    pub strip_width: u32,
    pub first_char: u8,
    pub last_char: u8,
    pub bpp: u8,
    /// Per-glyph advance widths, or `None` for a monospace font.
    pub widths: Option<Vec<u8>>,
    /// Tight bounding boxes: flat `[x_off, y_off, tight_w, tight_h]` per glyph.
    pub bboxes: Vec<u8>,
    /// Kerning pairs: flat `[left_idx, right_idx, adjustment]` triples, the
    /// adjustment a signed byte.
    pub kerning: Option<Vec<u8>>,
}

/// The advance width of glyph `idx`.
pub open spec fn advance_of(font: MicroFont, idx: u32) -> u32 {
    match font.widths {
        Some(w) => w@[idx as int] as u32,
        None => font.char_width,
    }
}

/// Whether glyph `idx` has an advance width entry where one is needed.
pub open spec fn advance_ok(font: MicroFont, idx: u32) -> bool {
    match font.widths {
        Some(w) => (idx as int) < w@.len(),
        None => true,
    }
}

/// The tight bounding box `(x_off, y_off, w, h)` of glyph `idx`: its four
/// table entries when the table holds them, else the whole cell.
pub open spec fn bbox_of(font: MicroFont, idx: u32) -> (u32, u32, u32, u32) {
    let base = idx * 4;
    if base + 3 < font.bboxes@.len() {
        (
            font.bboxes@[base] as u32,
            font.bboxes@[base + 1] as u32,
            font.bboxes@[base + 2] as u32,
            font.bboxes@[base + 3] as u32,
        )
    } else {
        (0, 0, font.char_width, font.char_height)
    }
}

/// The adjustment of the first kerning triple at or after `i` (stepping by
/// three) whose pair is `(l, r)`, or 0 when there is none.
pub open spec fn kern_from(table: Seq<u8>, l: u8, r: u8, i: int) -> i32
    decreases table.len() - i,
{
    if i < 0 || i + 2 >= table.len() {
        0
    } else if table[i] == l && table[i + 1] == r {
        (table[i + 2] as i8) as i32
    } else {
        kern_from(table, l, r, i + 3)
    }
}

/// The kerning adjustment between glyphs `left` and `right` (indices taken
/// modulo 256, as the table stores bytes).
pub open spec fn kern_of(font: MicroFont, left: u32, right: u32) -> i32 {
    match font.kerning {
        Some(k) => kern_from(k@, left as u8, right as u8, 0),
        None => 0,
    }
}

/// The byte of `data` that holds pixel `p` at `bpp` bits per pixel.
pub open spec fn pixel_byte(bpp: u8, p: int) -> int {
    if bpp == 8 {
        p
    } else if bpp == 4 {
        p / 2
    } else if bpp == 2 {
        p / 4
    } else {
        p / 8
    }
}

/// Whether pixel `p` can be read from the packed data.
pub open spec fn pixel_ok(font: MicroFont, p: int) -> bool {
    (font.bpp == 8 || font.bpp == 4 || font.bpp == 2 || font.bpp == 1) ==> 0 <= pixel_byte(
        font.bpp,
        p,
    ) < font.data@.len()
}

/// The raw value of pixel `p`, `bpp` bits taken most significant first.
pub open spec fn raw_pixel(data: Seq<u8>, bpp: u8, p: int) -> u8 {
    if bpp == 8 {
        data[p]
    } else if bpp == 4 {
        if p % 2 == 0 { data[p / 2] >> 4u8 } else { data[p / 2] & 0x0F }
    } else if bpp == 2 {
        (data[p / 4] >> ((3 - p % 4) * 2) as u8) & 0x03
    } else if bpp == 1 {
        (data[p / 8] >> (7 - p % 8) as u8) & 0x01
    } else {
        0
    }
}

/// The alpha of pixel `p` scaled to `0..=255`.
pub open spec fn alpha_of(font: MicroFont, p: int) -> u32 {
    let v = raw_pixel(font.data@, font.bpp, p);
    if font.bpp == 8 {
        v as u32
    } else if font.bpp == 4 {
        (v * 17) as u32
    } else if font.bpp == 2 {
        (v * 85) as u32
    } else if font.bpp == 1 {
        (v * 255) as u32
    } else {
        0
    }
}

/// The alpha of pixel `p` as a palette index in `0..=15`.
pub open spec fn alpha_index_of(font: MicroFont, p: int) -> u8 {
    let v = raw_pixel(font.data@, font.bpp, p);
    if font.bpp == 8 {
        v >> 4u8
    } else if font.bpp == 4 {
        v
    } else if font.bpp == 2 {
        (v * 5) as u8
    } else if font.bpp == 1 {
        (v * 15) as u8
    } else {
        0
    }
}

impl MicroFont {
    /// The advance width of glyph `char_idx`.
    pub fn advance_width(&self, char_idx: u32) -> (r: u32)
        requires
            advance_ok(*self, char_idx),
        ensures
            r == advance_of(*self, char_idx),
    {
        match &self.widths {
            Some(w) => w[char_idx as usize] as u32,
            None => self.char_width,
        }
    }

    /// Tight bounding box for a glyph: `(x_off, y_off, tight_w, tight_h)`.
    pub fn glyph_bbox(&self, char_idx: u32) -> (r: (u32, u32, u32, u32))
        requires
            char_idx * 4 + 3 <= usize::MAX,
        ensures
            r == bbox_of(*self, char_idx),
    {
        let base = (char_idx as usize) * 4;
        if base + 3 < self.bboxes.len() {
            (
                self.bboxes[base] as u32,
                self.bboxes[base + 1] as u32,
                self.bboxes[base + 2] as u32,
                self.bboxes[base + 3] as u32,
            )
        } else {
            (0, 0, self.char_width, self.char_height)
        }
    }

    /// Kerning adjustment between two glyph indices (in pixels, signed).
    pub fn kern(&self, left_idx: u32, right_idx: u32) -> (r: i32)
        ensures
            r == kern_of(*self, left_idx, right_idx),
    {
        let table = match &self.kerning {
            Some(k) => k,
            None => return 0,
        };
        let (l, r) = (left_idx as u8, right_idx as u8);
        let mut i: usize = 0;
        while table.len() >= 3 && i < table.len() - 2
            invariant
                i <= table@.len(),
                self.kerning == Some(*table),
                l == left_idx as u8,
                r == right_idx as u8,
                kern_from(table@, l, r, 0) == kern_from(table@, l, r, i as int),
            decreases table@.len() - i,
        {
            if table[i] == l && table[i + 1] == r {
                assert(kern_from(table@, l, r, i as int) == (table@[i + 2] as i8) as i32);
                return table[i + 2] as i8 as i32;
            }
            i += 3;
        }
        0
    }

    /// The alpha of pixel `pixel_index` scaled to `0..=255`.
    pub fn read_alpha(&self, pixel_index: usize) -> (r: u32)
        requires
            pixel_ok(*self, pixel_index as int),
        ensures
            r == alpha_of(*self, pixel_index as int),
    {
        match self.bpp {
            8 => self.data[pixel_index] as u32,
            4 => {
                let byte = self.data[pixel_index / 2];
                let v = if pixel_index % 2 == 0 { byte >> 4 } else { byte & 0x0F };
                assert(v <= 15) by (bit_vector)
                    requires v == byte >> 4u8 || v == byte & 0x0F;
                v as u32 * 17
            },
            2 => {
                let byte = self.data[pixel_index / 4];
                let sh = ((3 - pixel_index % 4) * 2) as u8;
                let v = (byte >> sh) & 0x03;
                assert(v <= 3) by (bit_vector)
                    requires v == (byte >> sh) & 0x03;
                v as u32 * 85
            },
            1 => {
                let byte = self.data[pixel_index / 8];
                let sh = (7 - pixel_index % 8) as u8;
                let v = (byte >> sh) & 0x01;
                assert(v <= 1) by (bit_vector)
                    requires v == (byte >> sh) & 0x01;
                v as u32 * 255
            },
            _ => 0,
        }
    }

    /// The alpha of pixel `pixel_index` as a 4-bit palette index (0-15),
    /// normalized from any bit depth.
    pub fn read_alpha_index(&self, pixel_index: usize) -> (r: u8)
        requires
            pixel_ok(*self, pixel_index as int),
        ensures
            r == alpha_index_of(*self, pixel_index as int),
            r <= 15,
    {
        match self.bpp {
            4 => {
                let b = self.data[pixel_index / 2];
                let v = if pixel_index % 2 == 0 { b >> 4 } else { b & 0x0F };
                assert(v <= 15) by (bit_vector)
                    requires v == b >> 4u8 || v == b & 0x0F;
                v
            },
            8 => {
                let b = self.data[pixel_index];
                assert(b >> 4u8 <= 15) by (bit_vector);
                b >> 4
            },
            2 => {
                let byte = self.data[pixel_index / 4];
                let sh = ((3 - pixel_index % 4) * 2) as u8;
                let v = (byte >> sh) & 0x03;
                assert(v <= 3) by (bit_vector)
                    requires v == (byte >> sh) & 0x03;
                v * 5
            },
            1 => {
                let byte = self.data[pixel_index / 8];
                let sh = (7 - pixel_index % 8) as u8;
                let v = (byte >> sh) & 0x01;
                assert(v <= 1) by (bit_vector)
                    requires v == (byte >> sh) & 0x01;
                v * 15
            },
            _ => 0,
        }
    }
}

/// Law: at 1, 2 and 4 bits per pixel the full alpha is exactly 17 times
/// the palette index.
pub proof fn lemma_alpha_is_scaled_index(font: MicroFont, p: int)
    requires
        font.bpp == 1 || font.bpp == 2 || font.bpp == 4,
    ensures
        alpha_of(font, p) == 17 * alpha_index_of(font, p),
{
    let v = raw_pixel(font.data@, font.bpp, p);
    if font.bpp == 4 {
        let b = font.data@[p / 2];
        assert(b >> 4u8 <= 15 && b & 0x0F <= 15) by (bit_vector);
    } else if font.bpp == 2 {
        let b = font.data@[p / 4];
        let s = ((3 - p % 4) * 2) as u8;
        assert((b >> s) & 0x03 <= 3) by (bit_vector);
    } else {
        let b = font.data@[p / 8];
        let s = (7 - p % 8) as u8;
        assert((b >> s) & 0x01 <= 1) by (bit_vector);
    }
}

} // verus!
