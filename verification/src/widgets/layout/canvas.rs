//! Percentage-based regions of any display with a known size.

use vstd::prelude::*;
use crate::geometry::{Point, Size, Rectangle};
use crate::basis::foundation::screen::{pct, clamp, spec_pct, spec_clamp};

verus! {

/// Percentage-based layout helpers for anything with a size in pixels.
pub trait Canvas {
    /// The canvas size.
    spec fn canvas_size(&self) -> Size;

    /// The canvas size in pixels.
    fn size(&self) -> (s: Size)
        ensures
            s == self.canvas_size(),
    ;

    /// The full canvas as a rectangle at the origin.
    fn canvas_bounds(&self) -> (r: Rectangle)
        ensures
            r == (Rectangle { top_left: Point { x: 0, y: 0 }, size: self.canvas_size() }),
    {
        Rectangle::new(Point::zero(), self.size())
    }

    /// A percentage of the width, not clamped.
    fn wp(&self, percent: u32) -> (r: u32)
        requires
            self.canvas_size().width * percent <= u32::MAX,
        ensures
            r == spec_pct(self.canvas_size().width, percent),
    {
        pct(self.size().width, percent)
    }

    /// A percentage of the height, not clamped.
    fn hp(&self, percent: u32) -> (r: u32)
        requires
            self.canvas_size().height * percent <= u32::MAX,
        ensures
            r == spec_pct(self.canvas_size().height, percent),
    {
        pct(self.size().height, percent)
    }

    /// A percentage of the width, clamped to `[min..=max]`.
    fn w(&self, percent: u32, min: u32, max: u32) -> (r: u32)
        requires
            self.canvas_size().width * percent <= u32::MAX,
        ensures
            r == spec_clamp(spec_pct(self.canvas_size().width, percent) as u32, min, max),
    {
        clamp(pct(self.size().width, percent), min, max)
    }

    /// A percentage of the height, clamped to `[min..=max]`.
    fn h(&self, percent: u32, min: u32, max: u32) -> (r: u32)
        requires
            self.canvas_size().height * percent <= u32::MAX,
        ensures
            r == spec_clamp(spec_pct(self.canvas_size().height, percent) as u32, min, max),
    {
        clamp(pct(self.size().height, percent), min, max)
    }

    /// A sub-region; all four values are percentages of the canvas.
    fn region(&self, x_pct: u32, y_pct: u32, w_pct: u32, h_pct: u32) -> (r: Rectangle)
        requires
            self.canvas_size().width * x_pct <= u32::MAX,
            self.canvas_size().height * y_pct <= u32::MAX,
            self.canvas_size().width * w_pct <= u32::MAX,
            self.canvas_size().height * h_pct <= u32::MAX,
        ensures
            r.top_left.x == (spec_pct(self.canvas_size().width, x_pct) as u32) as i32,
            r.top_left.y == (spec_pct(self.canvas_size().height, y_pct) as u32) as i32,
            r.size.width == spec_pct(self.canvas_size().width, w_pct),
            r.size.height == spec_pct(self.canvas_size().height, h_pct),
    {
        let s = self.size();
        Rectangle::new(
            Point::new(pct(s.width, x_pct) as i32, pct(s.height, y_pct) as i32),
            Size::new(pct(s.width, w_pct), pct(s.height, h_pct)),
        )
    }

    /// The whole canvas as a region: 0%, 0%, 100% by 100%.
    fn full(&self) -> (r: Rectangle)
        requires
            self.canvas_size().width * 100 <= u32::MAX,
            self.canvas_size().height * 100 <= u32::MAX,
        ensures
            r.top_left.x == 0 && r.top_left.y == 0,
            r.size == self.canvas_size(),
    {
        self.region(0, 0, 100, 100)
    }

    /// A sub-region whose position is a percentage and whose size is a
    /// clamped percentage.
    fn region_clamped(
        &self,
        x_pct: u32,
        y_pct: u32,
        w_pct: u32,
        h_pct: u32,
        min_w: u32,
        max_w: u32,
        min_h: u32,
        max_h: u32,
    ) -> (r: Rectangle)
        requires
            self.canvas_size().width * x_pct <= u32::MAX,
            self.canvas_size().height * y_pct <= u32::MAX,
            self.canvas_size().width * w_pct <= u32::MAX,
            self.canvas_size().height * h_pct <= u32::MAX,
        ensures
            r.top_left.x == (spec_pct(self.canvas_size().width, x_pct) as u32) as i32,
            r.top_left.y == (spec_pct(self.canvas_size().height, y_pct) as u32) as i32,
            r.size.width == spec_clamp(spec_pct(self.canvas_size().width, w_pct) as u32, min_w, max_w),
            r.size.height == spec_clamp(spec_pct(self.canvas_size().height, h_pct) as u32, min_h, max_h),
    {
        let s = self.size();
        Rectangle::new(
            Point::new(pct(s.width, x_pct) as i32, pct(s.height, y_pct) as i32),
            Size::new(
                clamp(pct(s.width, w_pct), min_w, max_w),
                clamp(pct(s.height, h_pct), min_h, max_h),
            ),
        )
    }
}

/// A size is the canvas of a display of that size.
impl Canvas for Size {
    open spec fn canvas_size(&self) -> Size {
        *self
    }

    fn size(&self) -> (s: Size) {
        *self
    }
}

} // verus!
