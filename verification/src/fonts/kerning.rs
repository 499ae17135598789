//! Kerning tables: pairs of glyph indices with a signed pixel adjustment,
//! stored as byte triples `[left, right, adjustment]`.

use vstd::prelude::*;
use crate::fonts::font::kern_from;

verus! {

/// The adjustment, in whole pixels, between glyph `left` and the glyph
/// `right` that follows it.
#[derive(Clone, Copy, Debug, PartialEq, Eq, Structural)]
pub struct KernPair {
    pub left: u32,
    pub right: u32,
    pub adjust: i32,
}

/// An adjustment limited to what a signed byte holds.
pub open spec fn clamp_adjust(a: i32) -> i32 {
    if a < -128 { -128i32 } else if a > 127 { 127i32 } else { a }
}

/// The signed byte of a limited adjustment, in two's complement.
pub open spec fn adjust_byte(a: i32) -> u8 {
    let c = clamp_adjust(a);
    (if c < 0 { c + 256 } else { c as int }) as u8
}

/// Whether a pair goes into the table: it moves the pen, and both glyph
/// indices fit in a byte.
pub open spec fn kept(p: KernPair) -> bool {
    p.adjust != 0 && p.left < 256 && p.right < 256
}

/// The triples of the first `k` pairs that are kept, in order.
pub open spec fn kern_triples(pairs: Seq<KernPair>, k: int) -> Seq<u8>
    decreases k,
{
    if k <= 0 {
        Seq::empty()
    } else {
        let p = pairs[k - 1];
        let prev = kern_triples(pairs, k - 1);
        if kept(p) {
            prev + seq![p.left as u8, p.right as u8, adjust_byte(p.adjust)]
        } else {
            prev
        }
    }
}

/// The kerning table of `pairs`: `None` when no pair is kept.
pub open spec fn kern_table(pairs: Seq<KernPair>) -> Option<Seq<u8>> {
    let t = kern_triples(pairs, pairs.len() as int);
    if t.len() == 0 {
        None
    } else {
        Some(t)
    }
}

/// Law: reading an adjustment back from its byte gives the adjustment
/// limited to `-128..=127`.
pub proof fn lemma_adjust_byte_reads_back(a: i32)
    ensures
        (adjust_byte(a) as i8) as i32 == clamp_adjust(a),
{
    let c = clamp_adjust(a);
    let b = adjust_byte(a);
    if c < 0 {
        assert(b == (c + 256) as u8);
        assert((b as i8) as i32 == b - 256) by (bit_vector)
            requires b >= 128u8;
    } else {
        assert((b as i8) as i32 == b) by (bit_vector)
            requires b < 128u8;
    }
}

/// The limited adjustment of the first kept pair at or after `k` whose
/// indices are `(l, r)`, or 0 when there is none.
pub open spec fn first_adjust(pairs: Seq<KernPair>, k: int, l: u8, r: u8) -> i32
    decreases pairs.len() - k,
{
    if k < 0 || k >= pairs.len() {
        0
    } else if kept(pairs[k]) && pairs[k].left == l && pairs[k].right == r {
        clamp_adjust(pairs[k].adjust)
    } else {
        first_adjust(pairs, k + 1, l, r)
    }
}

/// The triples of the first `k` pairs begin the triples of the first `n`.
proof fn lemma_triples_prefix(pairs: Seq<KernPair>, k: int, n: int)
    requires
        0 <= k <= n,
    ensures
        kern_triples(pairs, k).len() <= kern_triples(pairs, n).len(),
        kern_triples(pairs, n).subrange(0, kern_triples(pairs, k).len() as int) == kern_triples(pairs, k),
    decreases n - k,
{
    if k < n {
        lemma_triples_prefix(pairs, k, n - 1);
        assert(kern_triples(pairs, n).subrange(0, kern_triples(pairs, k).len() as int)
            =~= kern_triples(pairs, n - 1).subrange(0, kern_triples(pairs, k).len() as int));
    } else {
        assert(kern_triples(pairs, n).subrange(0, kern_triples(pairs, k).len() as int) =~= kern_triples(pairs, k));
    }
}

/// Searching the whole table from where the triples of pair `k` start
/// finds the first kept pair from `k` on.
proof fn lemma_search_from(pairs: Seq<KernPair>, k: int, l: u8, r: u8)
    requires
        0 <= k <= pairs.len(),
    ensures
        kern_from(kern_triples(pairs, pairs.len() as int), l, r, kern_triples(pairs, k).len() as int)
            == first_adjust(pairs, k, l, r),
    decreases pairs.len() - k,
{
    let n = pairs.len() as int;
    let t = kern_triples(pairs, n);
    let lo = kern_triples(pairs, k).len() as int;
    if k < n {
        lemma_search_from(pairs, k + 1, l, r);
        lemma_triples_prefix(pairs, k + 1, n);
        let p = pairs[k];
        if kept(p) {
            let pre = kern_triples(pairs, k + 1);
            assert(pre == kern_triples(pairs, k) + seq![p.left as u8, p.right as u8, adjust_byte(p.adjust)]);
            assert(t[lo] == pre[lo] && t[lo + 1] == pre[lo + 1] && t[lo + 2] == pre[lo + 2]);
            lemma_adjust_byte_reads_back(p.adjust);
        }
    } else {
        lemma_triples_prefix(pairs, k, n);
    }
}

/// Law: the table answers a search for glyphs `(l, r)` with the limited
/// adjustment of the first kept pair `(l, r)`, and with 0 when there is
/// none (also when no pair is kept and there is no table).
pub proof fn lemma_table_finds_first(pairs: Seq<KernPair>, l: u8, r: u8)
    ensures
        match kern_table(pairs) {
            Some(t) => kern_from(t, l, r, 0) == first_adjust(pairs, 0, l, r),
            None => first_adjust(pairs, 0, l, r) == 0,
        },
{
    lemma_search_from(pairs, 0, l, r);
    if kern_table(pairs) is None {
        assert(kern_from(kern_triples(pairs, pairs.len() as int), l, r, 0) == 0);
    }
}

/// The table byte of an adjustment.
fn adjust_to_byte(a: i32) -> (b: u8)
    ensures
        b == adjust_byte(a),
{
    let c: i32 = if a < -128 { -128 } else if a > 127 { 127 } else { a };
    (if c < 0 { c + 256 } else { c }) as u8
}

/// The kerning table of `pairs`: a triple for each pair that moves the pen
/// and whose indices fit in a byte, in order, the adjustment limited to a
/// signed byte; `None` when there is no such pair.
pub fn kerning_table(pairs: &Vec<KernPair>) -> (t: Option<Vec<u8>>)
    ensures
        match t {
            Some(v) => kern_table(pairs@) == Some(v@),
            None => kern_table(pairs@) is None,
        },
{
    let mut out: Vec<u8> = Vec::new();
    let mut k: usize = 0;
    while k < pairs.len()
        invariant
            0 <= k <= pairs@.len(),
            out@ == kern_triples(pairs@, k as int),
        decreases pairs@.len() - k,
    {
        let p = pairs[k];
        if p.adjust != 0 && p.left < 256 && p.right < 256 {
            let ghost before = out@;
            out.push(p.left as u8);
            out.push(p.right as u8);
            out.push(adjust_to_byte(p.adjust));
            assert(out@ =~= before + seq![p.left as u8, p.right as u8, adjust_byte(p.adjust)]);
        }
        k = k + 1;
    }
    if out.len() == 0 {
        None
    } else {
        Some(out)
    }
}

} // verus!
