//! Glyph-cell text layout for small displays: font data lookup, bitmap
//! sampling, cell-based layout of horizontal and vertical text, and the
//! rasterization post-processing used to build font data.

pub mod blocks;
pub mod debug;
pub mod embedded_text;
pub mod emit;
pub mod font;
pub mod geometry;
pub mod laws;
pub mod preview;
pub mod request;
pub mod simulator;
pub mod layout;
pub mod raster;
pub mod style;
pub mod text;
pub mod writer;

pub use debug::DebugBoxKind;
pub use embedded_text::GlyphCellTextStyle;
pub use font::{FontData, Glyph};
pub use geometry::{Point, Rectangle, Size};
pub use style::{Alignment, HorizontalAlignment, TextLayout, TextStyle, VerticalAlignment};
pub use text::DrawableText;
