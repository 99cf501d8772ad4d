//! Rendering of raster images as text art: each output glyph approximates the
//! brightness (and optionally the color) of a pixel of the resized source.

pub mod raster;
pub mod render;
pub mod image_converter;
pub mod argument_parser;
pub mod laws;
