//! Flex-weighted distribution of a stack's main axis among its children.

use vstd::prelude::*;
use crate::geometry::{Point, Size, Rectangle};
use crate::widgets::layout::stack::stack_direction::{main_of, cross_of, main_start, child_rect};

verus! {

/// The sum of the first `k` flex weights.
pub open spec fn flex_prefix(flexes: Seq<u32>, k: int) -> int
    decreases k,
{
    if k <= 0 {
        0
    } else {
        flex_prefix(flexes, k - 1) + flexes[k - 1]
    }
}

/// The sum of all flex weights.
pub open spec fn flex_sum(flexes: Seq<u32>) -> int {
    flex_prefix(flexes, flexes.len() as int)
}

/// `a - b`, or 0 when `b > a`.
pub open spec fn sat_sub(a: u32, b: u32) -> u32 {
    if b <= a { (a - b) as u32 } else { 0 }
}

/// The share of `main` pixels that a child of weight `flex` gets out of a
/// total weight `total`, rounded down.
pub open spec fn share(main: u32, flex: u32, total: u32) -> int {
    (main * flex) / (total as int)
}

/// The sum of the shares of the first `k` children.
pub open spec fn shares_before(main: u32, flexes: Seq<u32>, total: u32, k: int) -> int
    decreases k,
{
    if k <= 0 {
        0
    } else {
        shares_before(main, flexes, total, k - 1) + share(main, flexes[k - 1], total)
    }
}

/// The main-axis size of each child: its share, rounded down, except for the
/// last child, which takes what the others left.
pub open spec fn flex_sizes(main: u32, flexes: Seq<u32>, total: u32) -> Seq<u32> {
    Seq::new(
        flexes.len(),
        |i: int|
            if i == flexes.len() - 1 {
                if shares_before(main, flexes, total, i) <= main {
                    (main - shares_before(main, flexes, total, i)) as u32
                } else {
                    0
                }
            } else {
                share(main, flexes[i], total) as u32
            },
    )
}

/// The sum of the first `k` values.
pub open spec fn size_prefix(sizes: Seq<u32>, k: int) -> int
    decreases k,
{
    if k <= 0 {
        0
    } else {
        size_prefix(sizes, k - 1) + sizes[k - 1]
    }
}

/// Where the `i`-th child starts on the main axis: each child moves the next
/// one on by its size plus the gap.
pub open spec fn offset_at(start: int, sizes: Seq<u32>, gap: u32, i: int) -> int
    decreases i,
{
    if i <= 0 {
        start
    } else {
        offset_at(start, sizes, gap, i - 1) + ((sizes[i - 1] as i32) + (gap as i32))
    }
}

/// `rect` shrunk by `px` on every side.
pub open spec fn inset_rect(rect: Rectangle, px: u32) -> Rectangle {
    Rectangle {
        top_left: Point {
            x: (rect.top_left.x + (px as i32)) as i32,
            y: (rect.top_left.y + (px as i32)) as i32,
        },
        size: Size {
            width: sat_sub(rect.size.width, (px * 2) as u32),
            height: sat_sub(rect.size.height, (px * 2) as u32),
        },
    }
}

/// Whether shrinking `rect` by `px` stays within machine integers.
pub open spec fn inset_ok(rect: Rectangle, px: u32) -> bool {
    &&& px * 2 <= u32::MAX
    &&& i32::MIN <= rect.top_left.x + (px as i32) <= i32::MAX
    &&& i32::MIN <= rect.top_left.y + (px as i32) <= i32::MAX
}

/// The pixels taken by the gaps between `n` children.
pub open spec fn total_gap(n: int, gap: u32) -> int {
    gap * sat_sub(n as u32, 1)
}

/// The main-axis pixels left for the children once the gaps are taken.
pub open spec fn main_for_children(horizontal: bool, n: int, inner: Rectangle, gap: u32) -> u32 {
    sat_sub(main_of(horizontal, inner.size), total_gap(n, gap) as u32)
}

/// The main-axis sizes of the children of a stack.
pub open spec fn stack_sizes(
    horizontal: bool,
    flexes: Seq<u32>,
    bounds: Rectangle,
    padding: u32,
    gap: u32,
) -> Seq<u32> {
    let inner = inset_rect(bounds, padding);
    flex_sizes(
        main_for_children(horizontal, flexes.len() as int, inner, gap),
        flexes,
        flex_sum(flexes) as u32,
    )
}

/// Where the `i`-th child of a stack starts on the main axis.
pub open spec fn stack_offset(
    horizontal: bool,
    flexes: Seq<u32>,
    bounds: Rectangle,
    padding: u32,
    gap: u32,
    i: int,
) -> int {
    offset_at(
        main_start(horizontal, inset_rect(bounds, padding)) as int,
        stack_sizes(horizontal, flexes, bounds, padding, gap),
        gap,
        i,
    )
}

/// The rectangles a stack gives its children: none when it has no child or
/// no weight; otherwise child `i` starts where child `i - 1` ended plus the
/// gap, has its flex size on the main axis and the full inner extent on the
/// cross axis.
pub open spec fn stack_rects(
    horizontal: bool,
    flexes: Seq<u32>,
    bounds: Rectangle,
    padding: u32,
    gap: u32,
) -> Seq<Rectangle> {
    if flexes.len() == 0 || flex_sum(flexes) == 0 {
        Seq::empty()
    } else {
        let inner = inset_rect(bounds, padding);
        let sizes = stack_sizes(horizontal, flexes, bounds, padding, gap);
        Seq::new(
            flexes.len(),
            |i: int|
                child_rect(
                    horizontal,
                    inner,
                    stack_offset(horizontal, flexes, bounds, padding, gap, i) as i32,
                    sizes[i],
                    0,
                    cross_of(horizontal, inner.size),
                ),
        )
    }
}

/// Whether laying out a stack stays within machine integers: the weights,
/// the padding and the gaps add up within `u32`, each share's product fits,
/// and each step along the main axis stays within `i32`.
pub open spec fn stack_layout_ok(
    horizontal: bool,
    flexes: Seq<u32>,
    bounds: Rectangle,
    padding: u32,
    gap: u32,
) -> bool {
    let n = flexes.len() as int;
    let inner = inset_rect(bounds, padding);
    let mfc = main_for_children(horizontal, n, inner, gap);
    let sizes = stack_sizes(horizontal, flexes, bounds, padding, gap);
    n > 0 && flex_sum(flexes) > 0 ==> {
        &&& flex_sum(flexes) <= u32::MAX
        &&& inset_ok(bounds, padding)
        &&& total_gap(n, gap) <= u32::MAX
        &&& forall|i: int| 0 <= i < n - 1 ==> #[trigger] flexes[i] * mfc <= u32::MAX
        &&& forall|i: int|
            0 <= i < n ==> i32::MIN <= (#[trigger] sizes[i] as i32) + (gap as i32) <= i32::MAX
        &&& forall|i: int|
            0 <= i < n ==> i32::MIN <= #[trigger] stack_offset(horizontal, flexes, bounds, padding, gap, i + 1)
                <= i32::MAX
    }
}

/// Every flex prefix lies between 0 and the full sum.
pub proof fn lemma_flex_prefix_bounds(flexes: Seq<u32>, j: int, k: int)
    requires
        0 <= j <= k <= flexes.len(),
    ensures
        0 <= flex_prefix(flexes, j) <= flex_prefix(flexes, k),
    decreases k,
{
    if k > j {
        lemma_flex_prefix_bounds(flexes, j, k - 1);
    } else if j > 0 {
        lemma_flex_prefix_bounds(flexes, j - 1, j - 1);
    }
}

/// A child's share, times the total weight, never exceeds `main` times its
/// weight; summed over the first `k` children.
proof fn lemma_shares_scaled(main: u32, flexes: Seq<u32>, total: u32, k: int)
    requires
        total > 0,
        0 <= k <= flexes.len(),
    ensures
        0 <= shares_before(main, flexes, total, k),
        shares_before(main, flexes, total, k) * total <= main * flex_prefix(flexes, k),
    decreases k,
{
    if k > 0 {
        lemma_shares_scaled(main, flexes, total, k - 1);
        let f = flexes[k - 1];
        let q = share(main, f, total);
        assert(q * total <= main * f && q >= 0) by (nonlinear_arith)
            requires
                q == (main * f) / (total as int),
                total > 0,
        ;
        let sb = shares_before(main, flexes, total, k - 1);
        let fp = flex_prefix(flexes, k - 1);
        assert((sb + q) * total == sb * total + q * total) by (nonlinear_arith);
        assert(main * (fp + f) == main * fp + main * f) by (nonlinear_arith);
    }
}

/// The shares of all but the last child never exceed `main`.
pub proof fn lemma_shares_fit(main: u32, flexes: Seq<u32>, k: int)
    requires
        0 < flex_sum(flexes) <= u32::MAX,
        0 <= k <= flexes.len(),
    ensures
        0 <= shares_before(main, flexes, flex_sum(flexes) as u32, k) <= main,
{
    let total = flex_sum(flexes) as u32;
    lemma_shares_scaled(main, flexes, total, k);
    lemma_flex_prefix_bounds(flexes, k, flexes.len() as int);
    let sb = shares_before(main, flexes, total, k);
    let fp = flex_prefix(flexes, k);
    assert(main * fp <= main * total) by (nonlinear_arith)
        requires
            fp <= total,
    ;
    assert(sb <= main) by (nonlinear_arith)
        requires
            sb * total <= main * total,
            total > 0,
    ;
}

/// The children's sizes, summed over the first `k`, are the shares before
/// `k` when `k` stops short of the last child.
proof fn lemma_size_prefix_shares(main: u32, flexes: Seq<u32>, k: int)
    requires
        0 < flex_sum(flexes) <= u32::MAX,
        0 <= k < flexes.len(),
    ensures
        size_prefix(flex_sizes(main, flexes, flex_sum(flexes) as u32), k)
            == shares_before(main, flexes, flex_sum(flexes) as u32, k),
    decreases k,
{
    let total = flex_sum(flexes) as u32;
    if k > 0 {
        lemma_size_prefix_shares(main, flexes, k - 1);
        let f = flexes[k - 1];
        lemma_flex_prefix_bounds(flexes, k, flexes.len() as int);
        lemma_flex_prefix_bounds(flexes, k - 1, k - 1);
        assert(f <= total);
        assert(0 <= share(main, f, total) <= main) by (nonlinear_arith)
            requires
                total >= 1,
                f <= total,
                share(main, f, total) == (main * f) / (total as int),
        ;
        let sizes = flex_sizes(main, flexes, total);
        assert(sizes[k - 1] == share(main, f, total));
    }
}

/// Law: the children's main-axis sizes add up to exactly `main`, whatever
/// the weights (as long as one is non-zero).
pub proof fn lemma_flex_sizes_fill(main: u32, flexes: Seq<u32>)
    requires
        flexes.len() > 0,
        0 < flex_sum(flexes) <= u32::MAX,
    ensures
        size_prefix(flex_sizes(main, flexes, flex_sum(flexes) as u32), flexes.len() as int) == main,
{
    let n = flexes.len() as int;
    lemma_size_prefix_shares(main, flexes, n - 1);
    lemma_shares_fit(main, flexes, n - 1);
}

} // verus!

verus! {

proof fn lemma_size_prefix_mono(sizes: Seq<u32>, j: int, k: int)
    requires
        0 <= j <= k <= sizes.len(),
    ensures
        0 <= size_prefix(sizes, j) <= size_prefix(sizes, k),
    decreases k,
{
    if k > j {
        lemma_size_prefix_mono(sizes, j, k - 1);
    } else if j > 0 {
        lemma_size_prefix_mono(sizes, j - 1, j - 1);
    }
}

proof fn lemma_size_le_total(sizes: Seq<u32>, i: int)
    requires
        0 <= i < sizes.len(),
    ensures
        sizes[i] <= size_prefix(sizes, sizes.len() as int),
{
    lemma_size_prefix_mono(sizes, i, i);
    lemma_size_prefix_mono(sizes, i + 1, sizes.len() as int);
}

/// With sizes and the gap small enough not to wrap as `i32`, child `k`
/// starts `k` gaps plus the sizes of the children before it past the start.
proof fn lemma_offset_closed_form(start: int, sizes: Seq<u32>, gap: u32, k: int)
    requires
        0 <= k <= sizes.len(),
        gap <= i32::MAX,
        forall|i: int| 0 <= i < sizes.len() ==> sizes[i] <= i32::MAX,
        forall|i: int| 0 <= i < sizes.len() ==> sizes[i] + gap <= i32::MAX,
    ensures
        offset_at(start, sizes, gap, k) == start + size_prefix(sizes, k) + k * gap,
    decreases k,
{
    if k > 0 {
        lemma_offset_closed_form(start, sizes, gap, k - 1);
        let sz = sizes[k - 1];
        assert(sz <= i32::MAX);
        assert((sz as i32) as int == sz as int);
        assert((gap as i32) as int == gap as int);
        assert(offset_at(start, sizes, gap, k) == offset_at(start, sizes, gap, k - 1) + ((sz as i32) + (gap as i32)));
        assert(size_prefix(sizes, k) == size_prefix(sizes, k - 1) + sz);
        assert((k - 1) * gap + gap == k * gap) by (nonlinear_arith);
    } else {
        assert(k * gap == 0) by (nonlinear_arith) requires k == 0;
    }
}

/// Law: when the gaps fit in the inner main axis and the extents are within
/// `i32`, the children tile the padded bounds exactly: the first starts at
/// the inner start, each starts one gap after the previous one ends, and the
/// last ends at the inner end.
pub proof fn lemma_children_tile(horizontal: bool, flexes: Seq<u32>, bounds: Rectangle, padding: u32, gap: u32)
    requires
        0 < flexes.len() <= u32::MAX,
        0 < flex_sum(flexes) <= u32::MAX,
        total_gap(flexes.len() as int, gap) <= main_of(horizontal, inset_rect(bounds, padding).size),
        main_of(horizontal, inset_rect(bounds, padding).size) <= i32::MAX,
        main_of(horizontal, inset_rect(bounds, padding).size) + gap <= i32::MAX,
    ensures
        ({
            let n = flexes.len() as int;
            let inner = inset_rect(bounds, padding);
            let sizes = stack_sizes(horizontal, flexes, bounds, padding, gap);
            &&& stack_offset(horizontal, flexes, bounds, padding, gap, 0) == main_start(horizontal, inner)
            &&& forall|i: int|
                0 <= i < n - 1 ==> #[trigger] stack_offset(horizontal, flexes, bounds, padding, gap, i + 1)
                    == stack_offset(horizontal, flexes, bounds, padding, gap, i) + sizes[i] + gap
            &&& stack_offset(horizontal, flexes, bounds, padding, gap, n - 1) + sizes[n - 1] == main_start(horizontal, inner)
                + main_of(horizontal, inner.size)
        }),
{
    let n = flexes.len() as int;
    let inner = inset_rect(bounds, padding);
    let mt = main_of(horizontal, inner.size);
    let mfc = main_for_children(horizontal, n, inner, gap);
    let sizes = stack_sizes(horizontal, flexes, bounds, padding, gap);
    assert(mfc == mt - total_gap(n, gap));
    lemma_flex_sizes_fill(mfc, flexes);
    assert forall|i: int| 0 <= i < sizes.len() implies sizes[i] + gap <= i32::MAX by {
        lemma_size_le_total(sizes, i);
    }
    let start = main_start(horizontal, inner) as int;
    assert forall|i: int| 0 <= i < n - 1 implies #[trigger] stack_offset(horizontal, flexes, bounds, padding, gap, i + 1)
        == stack_offset(horizontal, flexes, bounds, padding, gap, i) + sizes[i] + gap by {
        assert(offset_at(start, sizes, gap, i + 1) == offset_at(start, sizes, gap, i) + ((sizes[i] as i32) + (gap as i32)));
    }
    lemma_offset_closed_form(start, sizes, gap, n - 1);
    assert(sat_sub(n as u32, 1) == n - 1);
    assert(total_gap(n, gap) == (n - 1) * gap) by (nonlinear_arith)
        requires total_gap(n, gap) == gap * sat_sub(n as u32, 1), sat_sub(n as u32, 1) == n - 1;
}

} // verus!
