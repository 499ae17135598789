//! Layout containers: the `Canvas` trait and flex-weighted stacks.

pub mod canvas;
pub mod stack;

pub use canvas::Canvas;
pub use stack::{HStack, VStack, Stack, Justify, Align};
