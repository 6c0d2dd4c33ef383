//! The font asset compiler: gray-level quantization, cell alignment, the dictionary of shaped
//! clusters and the character map that is built from it.

pub mod aligner;
pub mod asset;
pub mod bitmap;
pub mod charmap;
pub mod dict;
pub mod font;
pub mod halfwidth;
pub mod offsets;
pub mod quantize;
pub mod render;
pub mod source;
pub mod spacing;
pub mod strings;
pub mod units;
