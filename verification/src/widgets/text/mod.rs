//! Text widgets.

pub mod label;
pub mod text;

pub use label::{Label, TextAlign};
pub use text::Text;
