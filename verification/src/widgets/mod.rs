//! High-level UI widgets: primitives, text, and layout containers.

pub mod primitives;
pub mod text;
pub mod layout;
pub mod command;

pub use primitives::Rect;
pub use text::{Label, TextAlign, Text};
pub use layout::Canvas;
pub use layout::HStack;
pub use layout::VStack;
pub use layout::Justify;
pub use layout::Align;
