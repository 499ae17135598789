//! Percentage-based sizing of a screen.

pub mod screen;
