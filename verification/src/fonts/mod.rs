//! Bitmap fonts: the font atlas and its metrics, blending, the styled
//! font's measurement and rendering, pixel packing and atlas composition.

pub mod font;
pub mod blend;
pub mod style;
pub mod draw;
pub mod pack;
pub mod atlas;
pub mod args;
pub mod glyph_box;
pub mod kerning;

pub use font::MicroFont;
pub use style::MicroFontStyle;
