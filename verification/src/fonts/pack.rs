//! Packing 8-bit grayscale glyph pixels into 1, 2, 4 or 8 bits per pixel.

use vstd::prelude::*;
use crate::fonts::font::{raw_pixel, alpha_of, MicroFont};

verus! {

/// The largest value of a `bpp`-bit pixel.
pub open spec fn max_level(bpp: u8) -> int {
    vstd::arithmetic::power2::pow2(bpp as nat) - 1
}

/// An 8-bit value rounded to `bpp` bits: `round(v * max / 255)`, halves down.
pub open spec fn quantize(v: u8, bpp: u8) -> u8 {
    ((v * max_level(bpp) + 127) / 255) as u8
}

/// Pixels per packed byte.
pub open spec fn per_byte(bpp: u8) -> int {
    8int / (bpp as int)
}

/// Where pixel `j` of a byte sits: the first pixel takes the most
/// significant bits.
pub open spec fn field_shift(bpp: u8, j: int) -> u8 {
    ((per_byte(bpp) - 1 - j) * bpp) as u8
}

/// The first `m` pixels of packed byte `k`, or-ed into their fields.
pub open spec fn packed_prefix(raw: Seq<u8>, bpp: u8, k: int, m: int) -> u8
    decreases m,
{
    if m <= 0 {
        0
    } else {
        packed_prefix(raw, bpp, k, m - 1) | (quantize(raw[k * per_byte(bpp) + m - 1], bpp)
            << field_shift(bpp, m - 1))
    }
}

/// The number of pixels that packed byte `k` holds.
pub open spec fn pixels_in_byte(n: int, bpp: u8, k: int) -> int {
    if n - k * per_byte(bpp) < per_byte(bpp) {
        n - k * per_byte(bpp)
    } else {
        per_byte(bpp)
    }
}

/// The packed form of `raw`: a copy at 8 bits per pixel; otherwise each
/// byte holds `8 / bpp` quantized pixels, the first in the high bits, and
/// the last byte is zero-filled.
pub open spec fn packed(raw: Seq<u8>, bpp: u8) -> Seq<u8> {
    if bpp == 8 {
        raw
    } else {
        let ppb = per_byte(bpp);
        Seq::new(
            ((raw.len() + ppb - 1) / ppb) as nat,
            |k: int| packed_prefix(raw, bpp, k, pixels_in_byte(raw.len() as int, bpp, k)),
        )
    }
}

/// Whether the bit depth is one that fonts are made with.
pub open spec fn valid_bpp(bpp: u8) -> bool {
    bpp == 1 || bpp == 2 || bpp == 4 || bpp == 8
}

/// Whether `bpp` is an accepted bit depth: 1, 2, 4 or 8.
pub fn check_bpp(bpp: u8) -> (ok: bool)
    ensures
        ok == valid_bpp(bpp),
{
    bpp == 1 || bpp == 2 || bpp == 4 || bpp == 8
}

proof fn lemma_pow2_small(b: u8)
    requires
        1 <= b <= 8,
    ensures
        vstd::arithmetic::power2::pow2(b as nat) == (1u16 << b) as int,
        2 <= vstd::arithmetic::power2::pow2(b as nat) <= 256,
{
    vstd::arithmetic::power2::lemma2_to64();
    assert((1u16 << 1u8) == 2 && (1u16 << 2u8) == 4 && (1u16 << 3u8) == 8 && (1u16 << 4u8) == 16
        && (1u16 << 5u8) == 32 && (1u16 << 6u8) == 64 && (1u16 << 7u8) == 128 && (1u16 << 8u8)
        == 256) by (bit_vector);
}

proof fn lemma_quantize_bound(v: u8, bpp: u8)
    requires
        1 <= bpp <= 8,
    ensures
        0 <= (v * max_level(bpp) + 127) / 255 <= max_level(bpp),
{
    lemma_pow2_small(bpp);
    let m = max_level(bpp);
    assert(0 <= (v * m + 127) / 255 <= m) by (nonlinear_arith)
        requires
            0 <= v <= 255,
            1 <= m <= 255,
    ;
}

/// Pack 8-bit grayscale pixels into `bpp` bits per pixel, most significant
/// bits first.
pub fn pack_pixels(raw: &[u8], bpp: u8) -> (out: Vec<u8>)
    requires
        1 <= bpp <= 8,
        5 <= bpp <= 7 ==> raw@.len() < usize::MAX,
    ensures
        out@ == packed(raw@, bpp),
{
    if bpp == 8 {
        let mut copy: Vec<u8> = Vec::with_capacity(raw.len());
        let mut i: usize = 0;
        while i < raw.len()
            invariant
                0 <= i <= raw@.len(),
                copy@ == raw@.subrange(0, i as int),
            decreases raw@.len() - i,
        {
            copy.push(raw[i]);
            i = i + 1;
            assert(copy@ =~= raw@.subrange(0, i as int));
        }
        assert(copy@ =~= raw@);
        return copy;
    }
    proof {
        lemma_pow2_small(bpp);
    }
    let max_val = (1u16 << bpp) - 1;
    let ppb = 8 / bpp as usize;
    assert(ppb * bpp <= 8 && ppb >= 1) by (nonlinear_arith)
        requires ppb == 8int / (bpp as int), 1 <= bpp < 8;
    let len = raw.len();
    assert(bpp <= 4 ==> ppb >= 2) by (nonlinear_arith)
        requires ppb == 8int / (bpp as int), 1 <= bpp;
    assert(len / ppb + 1 <= usize::MAX) by (nonlinear_arith)
        requires ppb >= 2 || len < usize::MAX, ppb >= 1, len <= usize::MAX;
    let mut out: Vec<u8> = Vec::with_capacity(len / ppb + 1);
    let mut byte = 0u8;
    let mut pos = 0usize;
    if raw.len() == 0 {
        assert((0 + ppb - 1) / (ppb as int) == 0) by (nonlinear_arith)
            requires ppb >= 1;
        assert(out@ =~= packed(raw@, bpp));
        return out;
    }
    let ghost n = raw@.len() as int;
    let mut i: usize = 0;
    while i < raw.len()
        invariant
            1 <= bpp < 8,
            n == raw@.len(),
            ppb == per_byte(bpp),
            1 <= ppb <= 8,
            ppb * bpp <= 8,
            max_val == max_level(bpp),
            1 <= max_val <= 255,
            0 <= pos < ppb,
            i == out@.len() * ppb + pos,
            i <= n,
            byte == packed_prefix(raw@, bpp, out@.len() as int, pos as int),
            forall|k: int| 0 <= k < out@.len() ==> out@[k] == packed(raw@, bpp)[k],
        decreases n - i,
    {
        let val = raw[i];
        proof {
            lemma_quantize_bound(val, bpp);
        }
        assert(val as u16 * max_val <= 65025) by (nonlinear_arith)
            requires val <= 255, max_val <= 255;
        let q = ((val as u16 * max_val + 127) / 255) as u8;
        assert(q == quantize(raw@[i as int], bpp));
        let ghost k = out@.len() as int;
        assert((ppb - 1 - pos) * bpp <= 8 - bpp) by (nonlinear_arith)
            requires ppb * bpp <= 8, 0 <= pos < ppb, bpp >= 1;
        let sh = (ppb - 1 - pos) as u8 * bpp;
        assert(sh == field_shift(bpp, pos as int));
        byte |= q << sh;
        assert(byte == packed_prefix(raw@, bpp, k, pos as int + 1));
        pos += 1;
        i += 1;
        if pos == ppb {
            assert((k + 1) * ppb == k * ppb + ppb) by (nonlinear_arith);
            assert(pixels_in_byte(n, bpp, k) == ppb);
            assert(k < (n + ppb - 1) / (ppb as int)) by (nonlinear_arith)
                requires (k + 1) * ppb <= n, ppb >= 1, k >= 0;
            assert(packed(raw@, bpp)[k] == byte);
            out.push(byte);
            byte = 0;
            pos = 0;
        }
    }
    assert(i == n);
    let ghost k0 = out@.len() as int;
    let ghost p = ppb as int;
    let ghost r = pos as int;
    assert((n + p - 1) / p == if r > 0 { k0 + 1 } else { k0 }) by (nonlinear_arith)
        requires
            n == k0 * p + r,
            0 <= r < p,
            1 <= p,
            k0 >= 0;
    if pos > 0 {
        assert(pixels_in_byte(n, bpp, out@.len() as int) == pos);
        out.push(byte);
    }
    assert(out@ =~= packed(raw@, bpp));
    out
}

} // verus!

verus! {

/// The mask of a `bpp`-bit field.
pub open spec fn field_mask(bpp: u8) -> u8 {
    if bpp == 1 { 1 } else if bpp == 2 { 3 } else if bpp == 4 { 15 } else { 255 }
}

proof fn lemma_bits_set(acc: u8, q: u8, s: u8, b: u8, mk: u8)
    requires
        (b == 1 && mk == 1) || (b == 2 && mk == 3) || (b == 4 && mk == 15),
        q <= mk,
        s + b <= 8,
        (acc >> s) & mk == 0,
    ensures
        ((acc | (q << s)) >> s) & mk == q,
{
    assert(((acc | (q << s)) >> s) & mk == q) by (bit_vector)
        requires
            (b == 1 && mk == 1) || (b == 2 && mk == 3) || (b == 4 && mk == 15),
            q <= mk,
            s + b <= 8,
            (acc >> s) & mk == 0,
    ;
}

proof fn lemma_bits_above(acc: u8, q: u8, s: u8, t: u8, b: u8, mk: u8)
    requires
        (b == 1 && mk == 1) || (b == 2 && mk == 3) || (b == 4 && mk == 15),
        q <= mk,
        s + b <= t,
        t + b <= 8,
    ensures
        ((acc | (q << s)) >> t) & mk == (acc >> t) & mk,
{
    assert(((acc | (q << s)) >> t) & mk == (acc >> t) & mk) by (bit_vector)
        requires
            (b == 1 && mk == 1) || (b == 2 && mk == 3) || (b == 4 && mk == 15),
            q <= mk,
            s + b <= t,
            t + b <= 8,
    ;
}

proof fn lemma_bits_below(acc: u8, q: u8, s: u8, t: u8, b: u8, mk: u8)
    requires
        (b == 1 && mk == 1) || (b == 2 && mk == 3) || (b == 4 && mk == 15),
        q <= mk,
        t + b <= s,
        s + b <= 8,
    ensures
        ((acc | (q << s)) >> t) & mk == (acc >> t) & mk,
{
    assert(((acc | (q << s)) >> t) & mk == (acc >> t) & mk) by (bit_vector)
        requires
            (b == 1 && mk == 1) || (b == 2 && mk == 3) || (b == 4 && mk == 15),
            q <= mk,
            t + b <= s,
            s + b <= 8,
    ;
}

proof fn lemma_zero_fields(t: u8, mk: u8)
    ensures
        (0u8 >> t) & mk == 0,
{
    assert((0u8 >> t) & mk == 0) by (bit_vector);
}

/// Within packed byte `k`, after the first `m` pixels are or-ed in, each of
/// them reads back from its field, and every later field is still empty.
proof fn lemma_packed_prefix_fields(raw: Seq<u8>, bpp: u8, k: int, m: int)
    requires
        bpp == 1 || bpp == 2 || bpp == 4,
        0 <= k,
        0 <= m <= per_byte(bpp),
        k * per_byte(bpp) + m <= raw.len(),
    ensures
        forall|j: int|
            0 <= j < m ==> (#[trigger] packed_prefix(raw, bpp, k, m) >> field_shift(bpp, j)) & field_mask(bpp)
                == quantize(raw[k * per_byte(bpp) + j], bpp),
        forall|j: int|
            m <= j < per_byte(bpp) ==> (packed_prefix(raw, bpp, k, m) >> #[trigger] field_shift(bpp, j))
                & field_mask(bpp) == 0,
    decreases m,
{
    let ppb = per_byte(bpp);
    let b = bpp;
    let mk = field_mask(bpp);
    assert(ppb * b == 8);
    if m == 0 {
        assert forall|j: int| m <= j < ppb implies (packed_prefix(raw, bpp, k, m) >> #[trigger] field_shift(bpp, j)) & mk == 0 by {
            lemma_zero_fields(field_shift(bpp, j), mk);
        }
    } else {
        lemma_packed_prefix_fields(raw, bpp, k, m - 1);
        let acc = packed_prefix(raw, bpp, k, m - 1);
        let v = raw[k * ppb + m - 1];
        let q = quantize(v, bpp);
        lemma_quantize_bound(v, bpp);
        lemma_pow2_small(bpp);
        vstd::arithmetic::power2::lemma2_to64();
        assert(q <= mk);
        let s = field_shift(bpp, m - 1);
        assert(0 <= (ppb - 1 - (m - 1)) * b <= 8 - b) by (nonlinear_arith)
            requires ppb * b == 8, 1 <= m <= ppb, b >= 1;
        assert(s as int == (ppb - 1 - (m - 1)) * b);
        assert forall|j: int| 0 <= j < m implies (#[trigger] packed_prefix(raw, bpp, k, m) >> field_shift(bpp, j)) & mk
            == quantize(raw[k * ppb + j], bpp) by {
            if j == m - 1 {
                lemma_bits_set(acc, q, s, b, mk);
            } else {
                let t = field_shift(bpp, j);
                assert(0 <= (ppb - 1 - j) * b <= 8 - b && (ppb - 1 - j) * b >= (ppb - 1 - (m - 1)) * b + b) by (nonlinear_arith)
                    requires ppb * b == 8, 0 <= j < m - 1, m <= ppb, b >= 1;
                lemma_bits_above(acc, q, s, t, b, mk);
            }
        }
        assert forall|j: int| m <= j < ppb implies (packed_prefix(raw, bpp, k, m) >> #[trigger] field_shift(bpp, j)) & mk == 0 by {
            let t = field_shift(bpp, j);
            assert(0 <= (ppb - 1 - j) * b && (ppb - 1 - j) * b + b <= (ppb - 1 - (m - 1)) * b) by (nonlinear_arith)
                requires ppb * b == 8, m <= j < ppb, 1 <= m, b >= 1;
            lemma_bits_below(acc, q, s, t, b, mk);
        }
    }
}

/// Law: reading pixel `p` back out of packed data gives the pixel's value
/// quantized to `bpp` bits (at 8 bits per pixel, the value itself).
pub proof fn lemma_packed_reads_back(raw: Seq<u8>, bpp: u8, p: int)
    requires
        valid_bpp(bpp),
        0 <= p < raw.len(),
    ensures
        bpp == 8 ==> raw_pixel(packed(raw, bpp), bpp, p) == raw[p],
        bpp != 8 ==> raw_pixel(packed(raw, bpp), bpp, p) == quantize(raw[p], bpp),
{
    if bpp != 8 {
        let ppb = per_byte(bpp);
        let k = p / ppb;
        let j = p % ppb;
        let n = raw.len() as int;
        assert(p == k * ppb + j && 0 <= j < ppb && k >= 0) by (nonlinear_arith)
            requires ppb >= 1, p >= 0, k == p / ppb, j == p % ppb;
        let m = pixels_in_byte(n, bpp, k);
        assert(k < (n + ppb - 1) / ppb) by (nonlinear_arith)
            requires p == k * ppb + j, 0 <= j < ppb, p < n, ppb >= 1;
        lemma_packed_prefix_fields(raw, bpp, k, m);
        let byte = packed(raw, bpp)[k];
        assert(byte == packed_prefix(raw, bpp, k, m));
        assert((byte >> field_shift(bpp, j)) & field_mask(bpp) == quantize(raw[p], bpp));
        if bpp == 4 {
            assert(p / 2 == k && (p % 2 == 0 <==> j == 0));
            assert(byte & 0x0F == (byte >> 0u8) & 15) by (bit_vector);
            if j == 0 {
                assert(field_shift(bpp, j) == 4u8);
                assert((byte >> 4u8) & 15 == byte >> 4u8) by (bit_vector);
            } else {
                assert(field_shift(bpp, j) == 0u8);
            }
        } else if bpp == 2 {
            assert(p / 4 == k && p % 4 == j);
            assert(field_shift(bpp, j) == ((3 - p % 4) * 2) as u8);
        } else {
            assert(p / 8 == k && p % 8 == j);
            assert(field_shift(bpp, j) == (7 - p % 8) as u8);
        }
    }
}

/// The most that a pixel read back from packed data at `bpp` bits, scaled
/// to `0..=255`, can differ from the pixel packed.
pub open spec fn read_back_error(bpp: u8) -> int {
    if bpp == 1 {
        127
    } else if bpp == 2 {
        42
    } else if bpp == 4 {
        8
    } else {
        0
    }
}

/// Law: a font whose data is packed from `raw` reads each pixel back,
/// scaled to `0..=255`, within `read_back_error(bpp)` of the pixel packed:
/// exactly at 8 bits, and exactly for 0 and 255 at every depth.
pub proof fn lemma_read_back_error(f: MicroFont, raw: Seq<u8>, p: int)
    requires
        valid_bpp(f.bpp),
        f.data@ == packed(raw, f.bpp),
        0 <= p < raw.len(),
    ensures
        -read_back_error(f.bpp) <= alpha_of(f, p) - raw[p] <= read_back_error(f.bpp),
        (raw[p] == 0 || raw[p] == 255) ==> alpha_of(f, p) == raw[p],
{
    let bpp = f.bpp;
    lemma_packed_reads_back(raw, bpp, p);
    let v = raw[p];
    if bpp == 4 {
        assert(max_level(4) == 15) by {
            vstd::arithmetic::power2::lemma2_to64();
        }
        assert((v as int * 15 + 127) / 255 <= 15) by (nonlinear_arith)
            requires v <= 255;
        assert(quantize(v, 4) as int == (v as int * 15 + 127) / 255);
        assert(v as u32 <= (((v as u32 * 15 + 127) / 255) * 17) + 8 && (((v as u32 * 15 + 127) / 255) * 17) <= v as u32 + 8 && (v == 0 ==> (((v as u32 * 15 + 127) / 255) * 17) == 0) && (v == 255 ==> (((v as u32 * 15 + 127) / 255) * 17) == 255)) by (bit_vector);
    } else if bpp == 2 {
        assert(max_level(2) == 3) by {
            vstd::arithmetic::power2::lemma2_to64();
        }
        assert((v as int * 3 + 127) / 255 <= 3) by (nonlinear_arith)
            requires v <= 255;
        assert(quantize(v, 2) as int == (v as int * 3 + 127) / 255);
        assert(v as u32 <= (((v as u32 * 3 + 127) / 255) * 85) + 42 && (((v as u32 * 3 + 127) / 255) * 85) <= v as u32 + 42 && (v == 0 ==> (((v as u32 * 3 + 127) / 255) * 85) == 0) && (v == 255 ==> (((v as u32 * 3 + 127) / 255) * 85) == 255)) by (bit_vector);
    } else if bpp == 1 {
        assert(max_level(1) == 1) by {
            vstd::arithmetic::power2::lemma2_to64();
        }
        assert((v as int * 1 + 127) / 255 <= 1) by (nonlinear_arith)
            requires v <= 255;
        assert(quantize(v, 1) as int == (v as int * 1 + 127) / 255);
        assert(v as u32 <= (((v as u32 + 127) / 255) * 255) + 127 && (((v as u32 + 127) / 255) * 255) <= v as u32 + 127 && (v == 0 ==> (((v as u32 + 127) / 255) * 255) == 0) && (v == 255 ==> (((v as u32 + 127) / 255) * 255) == 255)) by (bit_vector);
    }
}

} // verus!
