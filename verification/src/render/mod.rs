//! Rendering into memory.

pub mod bitmap;
