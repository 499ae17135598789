//! Alpha blending of glyph coverage over a background, and the 16-entry
//! palette that replaces per-pixel blending.

use vstd::prelude::*;
use crate::color::{Rgb565, Rgb888, rgb888_to_rgb565, narrow};

verus! {

/// Number of entries in a glyph palette.
pub const PALETTE_SIZE: usize = 16;

/// One channel of `src` over `dst` at coverage `a`: `(s*a + d*(255-a) + 128) >> 8`,
/// a fast stand-in for dividing by 255 (off by at most one).
pub open spec fn blend_channel(s: u8, d: u8, a: u8) -> u8 {
    ((s * a + d * (255 - a) + 128) / 256) as u8
}

/// One channel of `src` over black at coverage `a`.
pub open spec fn blend_black_channel(s: u8, a: u8) -> u8 {
    ((s * a + 128) / 256) as u8
}

/// `src` blended over `dst` at coverage `a`, channel by channel.
pub open spec fn blend_spec(src: Rgb888, dst: Rgb888, a: u8) -> Rgb888 {
    Rgb888 {
        r: blend_channel(src.r, dst.r, a),
        g: blend_channel(src.g, dst.g, a),
        b: blend_channel(src.b, dst.b, a),
    }
}

/// `src` blended over black at coverage `a`.
pub open spec fn blend_over_black_spec(src: Rgb888, a: u8) -> Rgb888 {
    Rgb888 {
        r: blend_black_channel(src.r, a),
        g: blend_black_channel(src.g, a),
        b: blend_black_channel(src.b, a),
    }
}

/// The display color of palette entry `i`: the foreground at coverage
/// `17 * i` over the background, or over black when there is none.
pub open spec fn palette_entry(fg: Rgb888, bg: Option<Rgb888>, i: int) -> Rgb888 {
    let alpha = (i * 17) as u8;
    match bg {
        Some(b) => blend_spec(fg, b, alpha),
        None => blend_over_black_spec(fg, alpha),
    }
}

/// The 16 display colors of the palette for `fg` over `bg`.
pub open spec fn palette_spec(fg: Rgb888, bg: Option<Rgb888>) -> Seq<Rgb565> {
    Seq::new(PALETTE_SIZE as nat, |i: int| narrow(palette_entry(fg, bg, i)))
}

proof fn lemma_blend_channel_fits(s: u8, d: u8, a: u8)
    ensures
        s * a + d * (255 - a) + 128 <= u16::MAX,
        s * a + 128 <= u16::MAX,
{
    assert(s * a + d * (255 - a) <= 65025) by (nonlinear_arith)
        requires s <= 255, d <= 255, a <= 255;
    assert(s * a <= 65025) by (nonlinear_arith)
        requires s <= 255, a <= 255;
}

fn blend_channel_exec(s: u8, d: u8, a: u8) -> (r: u8)
    ensures
        r == blend_channel(s, d, a),
{
    proof { lemma_blend_channel_fits(s, d, a); }
    let (a, inv) = (a as u16, (255 - a) as u16);
    let t: u16 = s as u16 * a + d as u16 * inv + 128;
    assert(t >> 8u16 == t / 256) by (bit_vector);
    (t >> 8) as u8
}

fn blend_black_channel_exec(s: u8, a: u8) -> (r: u8)
    ensures
        r == blend_black_channel(s, a),
{
    proof { lemma_blend_channel_fits(s, 0, a); }
    let a = a as u16;
    let t: u16 = s as u16 * a + 128;
    assert(t >> 8u16 == t / 256) by (bit_vector);
    (t >> 8) as u8
}

/// Fast alpha blend of `src` over `dst` at coverage `a`.
pub fn blend(src: Rgb888, dst: Rgb888, a: u8) -> (r: Rgb888)
    ensures
        r == blend_spec(src, dst, a),
{
    Rgb888::new(
        blend_channel_exec(src.r, dst.r, a),
        blend_channel_exec(src.g, dst.g, a),
        blend_channel_exec(src.b, dst.b, a),
    )
}

/// Alpha blend of `src` over black at coverage `a`.
pub fn blend_over_black(src: Rgb888, a: u8) -> (r: Rgb888)
    ensures
        r == blend_over_black_spec(src, a),
{
    Rgb888::new(
        blend_black_channel_exec(src.r, a),
        blend_black_channel_exec(src.g, a),
        blend_black_channel_exec(src.b, a),
    )
}

/// The 16-entry palette for a foreground color over an optional
/// background, built once per string in place of per-pixel blending.
pub fn build_palette(fg: Rgb888, bg: Option<Rgb888>) -> (pal: Vec<Rgb565>)
    ensures
        pal@ == palette_spec(fg, bg),
{
    let mut pal: Vec<Rgb565> = Vec::with_capacity(PALETTE_SIZE);
    let mut i: usize = 0;
    while i < PALETTE_SIZE
        invariant
            0 <= i <= PALETTE_SIZE,
            pal@.len() == i,
            forall|j: int| 0 <= j < i ==> #[trigger] pal@[j] == narrow(palette_entry(fg, bg, j)),
        decreases PALETTE_SIZE - i,
    {
        let alpha = (i as u8) * 17;
        let blended = match bg {
            Some(b) => blend(fg, b, alpha),
            None => blend_over_black(fg, alpha),
        };
        pal.push(rgb888_to_rgb565(blended));
        i = i + 1;
    }
    assert(pal@ =~= palette_spec(fg, bg));
    pal
}

/// Law: blending over black is blending over the color `(0, 0, 0)`.
pub proof fn lemma_over_black_is_blend(src: Rgb888, a: u8)
    ensures
        blend_over_black_spec(src, a) == blend_spec(src, Rgb888 { r: 0, g: 0, b: 0 }, a),
{
}

proof fn lemma_full_coverage_channel(s: u8, d: u8)
    ensures
        s - 1 <= blend_channel(s, d, 255) <= s,
{
    assert(0 <= (s * 255 + 128) / 256 <= s && (s * 255 + 128) / 256 >= s - 1) by (nonlinear_arith)
        requires 0 <= s <= 255;
    assert(s * 255 + d * (255 - 255) + 128 == s * 255 + 128);
}

/// Law: at zero coverage over black the result is black, and at full
/// coverage each channel is within one of the source.
pub proof fn lemma_blend_extremes(src: Rgb888, dst: Rgb888)
    ensures
        blend_over_black_spec(src, 0) == (Rgb888 { r: 0, g: 0, b: 0 }),
        src.r - 1 <= blend_spec(src, dst, 255).r <= src.r,
        src.g - 1 <= blend_spec(src, dst, 255).g <= src.g,
        src.b - 1 <= blend_spec(src, dst, 255).b <= src.b,
{
    lemma_full_coverage_channel(src.r, dst.r);
    lemma_full_coverage_channel(src.g, dst.g);
    lemma_full_coverage_channel(src.b, dst.b);
}

} // verus!
