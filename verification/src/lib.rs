//! Bitmap fonts for small displays: a compiler that turns shaped and rasterized glyphs into a
//! compact font asset, and a renderer that lays the asset's glyph images out along a line of
//! text and decides, region by region, what is painted where.

pub mod compile;
pub mod builder;
pub mod charmap;
pub mod color;
pub mod fixed;
pub mod font;
pub mod glyph;
pub mod harvest;
pub mod image;
pub mod metrics;
pub mod rect;
pub mod style;
pub mod text;
