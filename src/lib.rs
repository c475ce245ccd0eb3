//! Caption overlay engine: rasterized glyph coverage is turned into an outlined
//! caption bitmap, fitted to the width of a photo and blended onto it.

pub mod adapt;
pub mod compose;
pub mod error;
pub mod glyphs;
pub mod raster;
