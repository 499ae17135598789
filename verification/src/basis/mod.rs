//! UI foundation: display-agnostic sizing.

pub mod foundation;
