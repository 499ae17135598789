//! An in-memory framebuffer that stores 8-bit-per-channel pixels and
//! encodes itself as a 24-bit BMP file.

use vstd::prelude::*;
use crate::geometry::{Point, Size};
use crate::color::{Rgb888, ToRgb888};
use core::marker::PhantomData;
use crate::widgets::layout::canvas::Canvas;

verus! {

/// A framebuffer for colors of type `C`, stored row-major at 8 bits per
/// channel, black when created.
pub struct BitmapTarget<C: ToRgb888 = Rgb888> {
    width: u32,
    height: u32,
    pixels: Vec<Rgb888>,
    _color: PhantomData<C>,
}

/// Where pixel `(x, y)` sits in a row-major buffer `w` wide.
pub open spec fn pixel_slot(w: u32, x: int, y: int) -> int {
    y * w + x
}

/// Whether `p` lies inside a `w` by `h` buffer.
pub open spec fn in_bounds(w: u32, h: u32, p: Point) -> bool {
    0 <= p.x && 0 <= p.y && p.x < w && p.y < h
}

/// The buffer after drawing one pixel: in bounds, the slot takes the color
/// at 8 bits per channel; out of bounds, nothing changes.
pub open spec fn draw_one<C: ToRgb888>(px: Seq<Rgb888>, w: u32, h: u32, p: Point, c: C) -> Seq<Rgb888> {
    if in_bounds(w, h, p) {
        px.update(pixel_slot(w, p.x as int, p.y as int), c.rgb_of())
    } else {
        px
    }
}

/// The buffer after drawing a list of pixels in order.
pub open spec fn draw_all<C: ToRgb888>(px: Seq<Rgb888>, w: u32, h: u32, list: Seq<(Point, C)>) -> Seq<Rgb888>
    decreases list.len(),
{
    if list.len() == 0 {
        px
    } else {
        let (p, c) = list.last();
        draw_one(draw_all(px, w, h, list.drop_last()), w, h, p, c)
    }
}

/// The bytes of `v` in little-endian order.
pub open spec fn le32(v: u32) -> Seq<u8> {
    seq![(v % 256) as u8, (v / 256 % 256) as u8, (v / 65536 % 256) as u8, (v / 16777216) as u8]
}

/// The bytes of `v` in little-endian order.
pub open spec fn le16(v: u16) -> Seq<u8> {
    seq![(v % 256) as u8, (v / 256) as u8]
}

/// Bytes in a BMP row: three per pixel, padded to a multiple of four.
pub open spec fn bmp_row_size(w: u32) -> int {
    ((w * 3 + 3) / 4) * 4
}

/// The 54-byte BMP header of a `w` by `h` 24-bit image.
pub open spec fn bmp_header(w: u32, h: u32) -> Seq<u8> {
    let pds = (bmp_row_size(w) * h) as u32;
    seq![66u8, 77u8] + le32((54 + pds) as u32) + le32(0) + le32(54) + le32(40) + le32(w) + le32(h)
        + le16(1) + le16(24) + le32(0) + le32(pds) + le32(2835) + le32(2835) + le32(0) + le32(0)
}

/// Byte `j` of the pixel data: rows bottom-up, each pixel blue, green,
/// red, then zero padding to the row size.
pub open spec fn bmp_data_byte(w: u32, h: u32, px: Seq<Rgb888>, j: int) -> u8 {
    let rs = bmp_row_size(w);
    let row = j / rs;
    let off = j % rs;
    let y = h - 1 - row;
    if off < w * 3 {
        let c = px[pixel_slot(w, off / 3, y)];
        if off % 3 == 0 { c.b } else if off % 3 == 1 { c.g } else { c.r }
    } else {
        0
    }
}

/// The 24-bit BMP file of a `w` by `h` buffer.
pub open spec fn bmp_file(w: u32, h: u32, px: Seq<Rgb888>) -> Seq<u8> {
    bmp_header(w, h) + Seq::new((bmp_row_size(w) * h) as nat, |j: int| bmp_data_byte(w, h, px, j))
}

/// Whether the BMP sizes of a `w` by `h` image fit in `u32`.
pub open spec fn bmp_ok(w: u32, h: u32) -> bool {
    &&& w * 3 + 3 <= u32::MAX
    &&& bmp_row_size(w) * h + 54 <= u32::MAX
}

impl<C: ToRgb888> BitmapTarget<C> {
    /// The buffer holds exactly one pixel per position, and the positions
    /// can be numbered in `u32`.
    pub closed spec fn wf(self) -> bool {
        &&& self.pixels@.len() == self.width * self.height
        &&& self.width * self.height <= u32::MAX
    }

    pub closed spec fn spec_width(self) -> u32 {
        self.width
    }

    pub closed spec fn spec_height(self) -> u32 {
        self.height
    }

    /// The pixels, row-major.
    pub closed spec fn spec_pixels(self) -> Seq<Rgb888> {
        self.pixels@
    }

    /// A `width` by `height` framebuffer, all black.
    pub fn new(width: u32, height: u32) -> (t: BitmapTarget<C>)
        requires
            width * height <= u32::MAX,
        ensures
            t.wf(),
            t.spec_width() == width,
            t.spec_height() == height,
            t.spec_pixels().len() == width * height,
            forall|i: int| 0 <= i < width * height ==> t.spec_pixels()[i] == (Rgb888 { r: 0, g: 0, b: 0 }),
    {
        let n = (width * height) as usize;
        let mut pixels: Vec<Rgb888> = Vec::with_capacity(n);
        let mut i: usize = 0;
        while i < n
            invariant
                0 <= i <= n,
                pixels@.len() == i,
                forall|k: int| 0 <= k < i ==> pixels@[k] == (Rgb888 { r: 0, g: 0, b: 0 }),
            decreases n - i,
        {
            pixels.push(Rgb888::new(0, 0, 0));
            i = i + 1;
        }
        BitmapTarget { width, height, pixels, _color: PhantomData }
    }

    /// Draw each pixel in order; those outside the buffer are skipped.
    pub fn draw_iter(&mut self, pixels: &Vec<(Point, C)>)
        requires
            old(self).wf(),
        ensures
            final(self).wf(),
            final(self).spec_width() == old(self).spec_width(),
            final(self).spec_height() == old(self).spec_height(),
            final(self).spec_pixels() == draw_all(
                old(self).spec_pixels(),
                old(self).spec_width(),
                old(self).spec_height(),
                pixels@,
            ),
    {
        let ghost start = self.pixels@;
        let mut i: usize = 0;
        while i < pixels.len()
            invariant
                0 <= i <= pixels@.len(),
                self.width == old(self).width,
                self.height == old(self).height,
                start == old(self).pixels@,
                self.pixels@.len() == self.width * self.height,
                self.width * self.height <= u32::MAX,
                self.pixels@ == draw_all(start, self.width, self.height, pixels@.take(i as int)),
            decreases pixels@.len() - i,
        {
            let (point, color) = pixels[i];
            let (x, y) = (point.x, point.y);
            if x >= 0 && y >= 0 && (x as u32) < self.width && (y as u32) < self.height {
                let rgb = color.to_rgb888();
                assert((y as u32) * self.width + (x as u32) < self.width * self.height) by (nonlinear_arith)
                    requires (y as u32) < self.height, (x as u32) < self.width;
                assert((y as u32) * self.width <= (y as u32) * self.width + (x as u32));
                let slot = ((y as u32) * self.width + (x as u32)) as usize;
                self.pixels.set(slot, rgb);
            }
            assert(pixels@.take(i + 1).drop_last() == pixels@.take(i as int));
            i = i + 1;
        }
        assert(pixels@.take(pixels@.len() as int) == pixels@);
    }

    /// The framebuffer as a 24-bit BMP file.
    pub fn bmp_bytes(&self) -> (bytes: Vec<u8>)
        requires
            self.wf(),
            bmp_ok(self.spec_width(), self.spec_height()),
        ensures
            bytes@ == bmp_file(self.spec_width(), self.spec_height(), self.spec_pixels()),
    {
        let (w, h) = (self.width, self.height);
        let row_size = ((w * 3 + 3) / 4) * 4;
        assert(row_size * h <= u32::MAX);
        let pixel_data_size = row_size * h;
        let file_size = 54 + pixel_data_size;
        let mut out: Vec<u8> = Vec::new();
        out.push(66);
        out.push(77);
        push_le32(&mut out, file_size);
        push_le32(&mut out, 0);
        push_le32(&mut out, 54);
        push_le32(&mut out, 40);
        push_le32(&mut out, w);
        push_le32(&mut out, h);
        push_le16(&mut out, 1);
        push_le16(&mut out, 24);
        push_le32(&mut out, 0);
        push_le32(&mut out, pixel_data_size);
        push_le32(&mut out, 2835);
        push_le32(&mut out, 2835);
        push_le32(&mut out, 0);
        push_le32(&mut out, 0);
        assert(out@ =~= bmp_header(w, h));
        let ghost data = Seq::new((bmp_row_size(w) * h) as nat, |j: int| bmp_data_byte(w, h, self.pixels@, j));
        let padding = row_size - w * 3;
        let mut row: u32 = 0;
        while row < h
            invariant
                w == self.width,
                h == self.height,
                self.pixels@.len() == w * h,
                w * h <= u32::MAX,
                row_size == bmp_row_size(w),
                row_size >= w * 3,
                padding == row_size - w * 3,
                row_size * h <= u32::MAX,
                row <= h,
                data == Seq::new((bmp_row_size(w) * h) as nat, |j: int| bmp_data_byte(w, h, self.pixels@, j)),
                out@ == bmp_header(w, h) + data.take(row * row_size),
            decreases h - row,
        {
            let y = h - 1 - row;
            let mut x: u32 = 0;
            while x < w
                invariant
                    w == self.width,
                    h == self.height,
                    self.pixels@.len() == w * h,
                    w * h <= u32::MAX,
                    row_size == bmp_row_size(w),
                    row_size >= w * 3,
                    row_size * h <= u32::MAX,
                    row < h,
                    y == h - 1 - row,
                    x <= w,
                    data == Seq::new((bmp_row_size(w) * h) as nat, |j: int| bmp_data_byte(w, h, self.pixels@, j)),
                    out@ == bmp_header(w, h) + data.take(row * row_size + x * 3),
                decreases w - x,
            {
                assert(y * w + x < w * h) by (nonlinear_arith)
                    requires y < h, x < w;
                assert(y * w <= y * w + x);
                let c = self.pixels[(y * w + x) as usize];
                proof { lemma_data_index(w, h, row as int, x as int * 3); }
                out.push(c.b);
                proof { lemma_data_index(w, h, row as int, x as int * 3 + 1); }
                out.push(c.g);
                proof { lemma_data_index(w, h, row as int, x as int * 3 + 2); }
                out.push(c.r);
                proof {
                    assert(out@ =~= bmp_header(w, h) + data.take(row * row_size + x * 3 + 3));
                }
                x += 1;
            }
            let mut k: u32 = 0;
            while k < padding
                invariant
                    w == self.width,
                    h == self.height,
                    row_size == bmp_row_size(w),
                    row_size >= w * 3,
                    padding == row_size - w * 3,
                    row_size * h <= u32::MAX,
                    row < h,
                    k <= padding,
                    data == Seq::new((bmp_row_size(w) * h) as nat, |j: int| bmp_data_byte(w, h, self.pixels@, j)),
                    out@ == bmp_header(w, h) + data.take(row * row_size + w * 3 + k),
                decreases padding - k,
            {
                proof { lemma_data_index(w, h, row as int, w * 3 + k); }
                out.push(0);
                proof {
                    assert(out@ =~= bmp_header(w, h) + data.take(row * row_size + w * 3 + k + 1));
                }
                k += 1;
            }
            assert(row * row_size + w * 3 + padding == (row + 1) * row_size) by (nonlinear_arith)
                requires padding == row_size - w * 3;
            row += 1;
        }
        assert(data.take(h * row_size) =~= data) by {
            assert(h * row_size == bmp_row_size(w) * h) by (nonlinear_arith)
                requires row_size == bmp_row_size(w);
        }
        out
    }
}

/// Byte `off` of data row `row` is where the file's data puts it.
proof fn lemma_data_index(w: u32, h: u32, row: int, off: int)
    requires
        0 <= row < h,
        0 <= off < bmp_row_size(w),
        bmp_row_size(w) * h <= u32::MAX,
    ensures
        0 <= row * bmp_row_size(w) + off < bmp_row_size(w) * h,
        (row * bmp_row_size(w) + off) / bmp_row_size(w) == row,
        (row * bmp_row_size(w) + off) % bmp_row_size(w) == off,
{
    let rs = bmp_row_size(w);
    assert(0 <= row * rs + off < rs * h) by (nonlinear_arith)
        requires 0 <= row < h, 0 <= off < rs;
    vstd::arithmetic::div_mod::lemma_fundamental_div_mod_converse(row * rs + off, rs, row, off);
}

/// Append the little-endian bytes of `v`.
fn push_le32(out: &mut Vec<u8>, v: u32)
    ensures
        final(out)@ == old(out)@ + le32(v),
{
    out.push((v % 256) as u8);
    out.push((v / 256 % 256) as u8);
    out.push((v / 65536 % 256) as u8);
    out.push((v / 16777216) as u8);
    assert(final(out)@ =~= old(out)@ + le32(v));
}

/// Append the little-endian bytes of `v`.
fn push_le16(out: &mut Vec<u8>, v: u16)
    ensures
        final(out)@ == old(out)@ + le16(v),
{
    out.push((v % 256) as u8);
    out.push((v / 256) as u8);
    assert(final(out)@ =~= old(out)@ + le16(v));
}

/// A framebuffer is a canvas of its own size.
impl<C: ToRgb888> Canvas for BitmapTarget<C> {
    open spec fn canvas_size(&self) -> Size {
        Size { width: self.spec_width(), height: self.spec_height() }
    }

    fn size(&self) -> (s: Size) {
        Size::new(self.width, self.height)
    }
}

} // verus!

verus! {

/// Where the blue byte of pixel `(x, y)` sits in the BMP file.
pub open spec fn bmp_pixel_offset(w: u32, h: u32, x: int, y: int) -> int {
    54 + (h - 1 - y) * bmp_row_size(w) + 3 * x
}

/// Law: the BMP file holds every pixel `(x, y)` of the buffer at its place,
/// blue, green, red, rows bottom-up; and the padding that ends each stored
/// row is zero.
pub proof fn lemma_bmp_pixels(w: u32, h: u32, px: Seq<Rgb888>, x: int, y: int, pad: int)
    requires
        px.len() == w * h,
        0 <= x < w,
        0 <= y < h,
        w * 3 <= pad < bmp_row_size(w),
        bmp_ok(w, h),
    ensures
        ({
            let file = bmp_file(w, h, px);
            let o = bmp_pixel_offset(w, h, x, y);
            let c = px[pixel_slot(w, x, y)];
            &&& file[o] == c.b
            &&& file[o + 1] == c.g
            &&& file[o + 2] == c.r
            &&& file[54 + (h - 1 - y) * bmp_row_size(w) + pad] == 0
        }),
{
    let rs = bmp_row_size(w);
    let row = h - 1 - y;
    assert(rs >= w * 3) by (nonlinear_arith)
        requires rs == ((w * 3 + 3) / 4) * 4;
    assert(0 <= y * w + x < w * h) by (nonlinear_arith)
        requires 0 <= y < h, 0 <= x < w;
    let hdr = bmp_header(w, h);
    assert(hdr.len() == 54);
    lemma_data_index(w, h, row, 3 * x);
    lemma_data_index(w, h, row, 3 * x + 1);
    lemma_data_index(w, h, row, 3 * x + 2);
    lemma_data_index(w, h, row, pad);
    assert((3 * x) / 3 == x && (3 * x + 1) / 3 == x && (3 * x + 2) / 3 == x);
}

/// Law: after drawing color `c` at an in-bounds point, the BMP file holds
/// that color, at 8 bits per channel, at the point's place: blue,
/// green, red.
pub proof fn lemma_drawn_pixel_in_bmp<C: ToRgb888>(w: u32, h: u32, px: Seq<Rgb888>, p: Point, c: C)
    requires
        px.len() == w * h,
        in_bounds(w, h, p),
        bmp_ok(w, h),
    ensures
        ({
            let file = bmp_file(w, h, draw_one(px, w, h, p, c));
            let o = bmp_pixel_offset(w, h, p.x as int, p.y as int);
            &&& file[o] == c.rgb_of().b
            &&& file[o + 1] == c.rgb_of().g
            &&& file[o + 2] == c.rgb_of().r
        }),
{
    let rs = bmp_row_size(w);
    let row = h - 1 - p.y;
    let x = p.x as int;
    let y = p.y as int;
    assert(rs >= w * 3) by (nonlinear_arith)
        requires rs == ((w * 3 + 3) / 4) * 4;
    assert(0 <= y * w + x < w * h) by (nonlinear_arith)
        requires 0 <= y < h, 0 <= x < w;
    let px2 = draw_one(px, w, h, p, c);
    assert(px2[pixel_slot(w, x, y)] == c.rgb_of());
    let hdr = bmp_header(w, h);
    assert(hdr.len() == 54);
    lemma_data_index(w, h, row, 3 * x);
    lemma_data_index(w, h, row, 3 * x + 1);
    lemma_data_index(w, h, row, 3 * x + 2);
    assert((3 * x) / 3 == x && (3 * x + 1) / 3 == x && (3 * x + 2) / 3 == x);
}

} // verus!
