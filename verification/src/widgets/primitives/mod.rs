//! Primitive widgets.

pub mod rect;

pub use rect::Rect;
