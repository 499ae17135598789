//! Display-agnostic screen context for percentage-based sizing.

use vstd::prelude::*;
use crate::geometry::{Point, Size, Rectangle};

verus! {

/// `percent` percent of `total`, rounded down.
pub open spec fn spec_pct(total: u32, percent: u32) -> int {
    (total * percent) / 100
}

/// `value` limited to `min` from below, then to `max` from above.
pub open spec fn spec_clamp(value: u32, min: u32, max: u32) -> u32 {
    if value < min {
        min
    } else if value > max {
        max
    } else {
        value
    }
}

/// Integer percentage: `pct(368, 50)` is 184.
pub fn pct(total: u32, percent: u32) -> (r: u32)
    requires
        total * percent <= u32::MAX,
    ensures
        r == spec_pct(total, percent),
{
    (total * percent) / 100
}

/// Clamp `value` into `[min..=max]`; `min` wins when `min > max`.
pub fn clamp(value: u32, min: u32, max: u32) -> (r: u32)
    ensures
        r == spec_clamp(value, min, max),
{
    if value < min {
        min
    } else if value > max {
        max
    } else {
        value
    }
}

/// Display-agnostic screen dimensions.
#[derive(Clone, Copy, Debug)]
pub struct Screen {
    /// Display width in pixels.
    pub width: u32,
    /// Display height in pixels.
    pub height: u32,
}

impl Screen {
    /// A screen context from pixel dimensions.
    pub fn new(width: u32, height: u32) -> (s: Screen)
        ensures
            s.width == width,
            s.height == height,
    {
        Screen { width, height }
    }

    /// The full screen as a rectangle at the origin.
    pub fn bounds(&self) -> (r: Rectangle)
        ensures
            r.top_left.x == 0,
            r.top_left.y == 0,
            r.size.width == self.width,
            r.size.height == self.height,
    {
        Rectangle::new(Point::zero(), Size::new(self.width, self.height))
    }

    /// A percentage of the width, clamped to `[min..=max]`.
    pub fn w(&self, percent: u32, min: u32, max: u32) -> (r: u32)
        requires
            self.width * percent <= u32::MAX,
        ensures
            r == spec_clamp(spec_pct(self.width, percent) as u32, min, max),
    {
        clamp(pct(self.width, percent), min, max)
    }

    /// A percentage of the height, clamped to `[min..=max]`.
    pub fn h(&self, percent: u32, min: u32, max: u32) -> (r: u32)
        requires
            self.height * percent <= u32::MAX,
        ensures
            r == spec_clamp(spec_pct(self.height, percent) as u32, min, max),
    {
        clamp(pct(self.height, percent), min, max)
    }

    /// A percentage of the width, not clamped.
    pub fn wp(&self, percent: u32) -> (r: u32)
        requires
            self.width * percent <= u32::MAX,
        ensures
            r == spec_pct(self.width, percent),
    {
        pct(self.width, percent)
    }

    /// A percentage of the height, not clamped.
    pub fn hp(&self, percent: u32) -> (r: u32)
        requires
            self.height * percent <= u32::MAX,
        ensures
            r == spec_pct(self.height, percent),
    {
        pct(self.height, percent)
    }

    /// A sub-region of the screen; all four values are percentages.
    pub fn region(&self, x_pct: u32, y_pct: u32, w_pct: u32, h_pct: u32) -> (r: Rectangle)
        requires
            self.width * x_pct <= u32::MAX,
            self.height * y_pct <= u32::MAX,
            self.width * w_pct <= u32::MAX,
            self.height * h_pct <= u32::MAX,
        ensures
            r.top_left.x == (spec_pct(self.width, x_pct) as u32) as i32,
            r.top_left.y == (spec_pct(self.height, y_pct) as u32) as i32,
            r.size.width == spec_pct(self.width, w_pct),
            r.size.height == spec_pct(self.height, h_pct),
    {
        Rectangle::new(
            Point::new(pct(self.width, x_pct) as i32, pct(self.height, y_pct) as i32),
            Size::new(pct(self.width, w_pct), pct(self.height, h_pct)),
        )
    }

    /// A sub-region whose position is a percentage and whose size is a
    /// clamped percentage.
    pub fn region_clamped(
        &self,
        x_pct: u32,
        y_pct: u32,
        w_pct: u32,
        h_pct: u32,
        min_w: u32,
        max_w: u32,
        min_h: u32,
        max_h: u32,
    ) -> (r: Rectangle)
        requires
            self.width * x_pct <= u32::MAX,
            self.height * y_pct <= u32::MAX,
            self.width * w_pct <= u32::MAX,
            self.height * h_pct <= u32::MAX,
        ensures
            r.top_left.x == (spec_pct(self.width, x_pct) as u32) as i32,
            r.top_left.y == (spec_pct(self.height, y_pct) as u32) as i32,
            r.size.width == spec_clamp(spec_pct(self.width, w_pct) as u32, min_w, max_w),
            r.size.height == spec_clamp(spec_pct(self.height, h_pct) as u32, min_h, max_h),
    {
        Rectangle::new(
            Point::new(pct(self.width, x_pct) as i32, pct(self.height, y_pct) as i32),
            Size::new(
                clamp(pct(self.width, w_pct), min_w, max_w),
                clamp(pct(self.height, h_pct), min_h, max_h),
            ),
        )
    }
}

/// Law: a clamped value lies in `[min, max]` whenever `min <= max`, and a
/// value already in range is left unchanged.
pub proof fn lemma_clamp_in_range(value: u32, min: u32, max: u32)
    requires
        min <= max,
    ensures
        min <= spec_clamp(value, min, max) <= max,
        min <= value <= max ==> spec_clamp(value, min, max) == value,
{
}

/// Law: a percentage of at most 100 never exceeds the total, and a larger
/// percentage never gives fewer pixels.
pub proof fn lemma_pct_bounds(total: u32, p1: u32, p2: u32)
    requires
        p1 <= p2 <= 100,
    ensures
        0 <= spec_pct(total, p1) <= spec_pct(total, p2) <= total,
{
    assert(0 <= total * p1 <= total * p2 <= total * 100) by (nonlinear_arith)
        requires p1 <= p2 <= 100, total >= 0, p1 >= 0;
    assert(0 <= (total * p1) / 100 <= (total * p2) / 100) by (nonlinear_arith)
        requires 0 <= total * p1 <= total * p2;
    assert((total * p2) / 100 <= total) by (nonlinear_arith)
        requires total * p2 <= total * 100, total >= 0;
}

} // verus!
