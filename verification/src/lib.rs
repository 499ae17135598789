//! Microface: a small UI toolkit for embedded displays.
//!
//! The library computes layout (percentage regions, flex stacks), font
//! metrics, glyph rendering, pixel packing and bitmap encoding as plain
//! values. Painting produces drawing commands and operations; whoever holds
//! the display executes them in order.
#![allow(unused_imports)]

use vstd::prelude::*;

pub mod geometry;
pub mod basis;
pub mod color;
pub mod element;
pub mod fonts;
pub mod render;
pub mod widgets;

pub use geometry::{Point, Size, Rectangle};
pub use widgets::layout::Canvas;

verus! {
} // verus!
