//! The axis along which a stack lays out its children.

use vstd::prelude::*;
use crate::geometry::{Point, Size, Rectangle};

verus! {

/// The main-axis length of `size`: its width for a horizontal stack, its
/// height for a vertical one.
pub open spec fn main_of(horizontal: bool, size: Size) -> u32 {
    if horizontal { size.width } else { size.height }
}

/// The cross-axis length of `size`.
pub open spec fn cross_of(horizontal: bool, size: Size) -> u32 {
    if horizontal { size.height } else { size.width }
}

/// The main-axis coordinate of the rectangle's top-left corner.
pub open spec fn main_start(horizontal: bool, r: Rectangle) -> i32 {
    if horizontal { r.top_left.x } else { r.top_left.y }
}

/// The cross-axis coordinate of the rectangle's top-left corner.
pub open spec fn cross_start(horizontal: bool, r: Rectangle) -> i32 {
    if horizontal { r.top_left.y } else { r.top_left.x }
}

/// Whether the cross-axis start of a child placed `cross_offset` into
/// `parent` fits in an `i32`.
pub open spec fn child_bounds_ok(horizontal: bool, parent: Rectangle, cross_offset: i32) -> bool {
    i32::MIN <= cross_start(horizontal, parent) + cross_offset <= i32::MAX
}

/// The rectangle of a child that starts at `offset` on the main axis with
/// extent `main_size`, and `cross_offset` into the parent on the cross axis
/// with extent `cross_size`.
pub open spec fn child_rect(
    horizontal: bool,
    parent: Rectangle,
    offset: i32,
    main_size: u32,
    cross_offset: i32,
    cross_size: u32,
) -> Rectangle {
    let c = (cross_start(horizontal, parent) + cross_offset) as i32;
    if horizontal {
        Rectangle { top_left: Point { x: offset, y: c }, size: Size { width: main_size, height: cross_size } }
    } else {
        Rectangle { top_left: Point { x: c, y: offset }, size: Size { width: cross_size, height: main_size } }
    }
}

/// The axis along which a stack lays out its children.
pub trait StackDirection {
    /// Whether the main axis is horizontal.
    spec fn horizontal() -> bool;

    /// Main-axis length of the given size.
    fn main_axis_size(size: Size) -> (r: u32)
        ensures
            r == main_of(Self::horizontal(), size),
    ;

    /// Cross-axis length of the given size.
    fn cross_axis_size(size: Size) -> (r: u32)
        ensures
            r == cross_of(Self::horizontal(), size),
    ;

    /// Starting offset along the main axis from the parent bounds.
    fn initial_offset(bounds: &Rectangle) -> (r: i32)
        ensures
            r == main_start(Self::horizontal(), *bounds),
    ;

    /// A child's rectangle from the parent bounds, the main-axis offset and
    /// extent, and the cross-axis offset and extent.
    fn child_bounds(
        parent: &Rectangle,
        offset: i32,
        main_size: u32,
        cross_offset: i32,
        cross_size: u32,
    ) -> (r: Rectangle)
        requires
            child_bounds_ok(Self::horizontal(), *parent, cross_offset),
        ensures
            r == child_rect(Self::horizontal(), *parent, offset, main_size, cross_offset, cross_size),
    ;
}

/// Left-to-right direction marker.
pub struct Horizontal;

/// Top-to-bottom direction marker.
pub struct Vertical;

impl StackDirection for Horizontal {
    open spec fn horizontal() -> bool {
        true
    }

    fn main_axis_size(size: Size) -> (r: u32) {
        size.width
    }

    fn cross_axis_size(size: Size) -> (r: u32) {
        size.height
    }

    fn initial_offset(bounds: &Rectangle) -> (r: i32) {
        bounds.top_left.x
    }

    fn child_bounds(
        parent: &Rectangle,
        offset: i32,
        main_size: u32,
        cross_offset: i32,
        cross_size: u32,
    ) -> (r: Rectangle) {
        Rectangle::new(
            Point::new(offset, parent.top_left.y + cross_offset),
            Size::new(main_size, cross_size),
        )
    }
}

impl StackDirection for Vertical {
    open spec fn horizontal() -> bool {
        false
    }

    fn main_axis_size(size: Size) -> (r: u32) {
        size.height
    }

    fn cross_axis_size(size: Size) -> (r: u32) {
        size.width
    }

    fn initial_offset(bounds: &Rectangle) -> (r: i32) {
        bounds.top_left.y
    }

    fn child_bounds(
        parent: &Rectangle,
        offset: i32,
        main_size: u32,
        cross_offset: i32,
        cross_size: u32,
    ) -> (r: Rectangle) {
        Rectangle::new(
            Point::new(parent.top_left.x + cross_offset, offset),
            Size::new(cross_size, main_size),
        )
    }
}

} // verus!
