//! Colour quantisation of raster images onto a palette of colours and a set of
//! fixed-size glyphs, in the manner of ANSI terminal art.
pub mod ansi;
pub mod dimensions;
pub mod error;
pub mod engine;
pub mod glyphs;
pub mod index;
pub mod laws;
pub mod raster;
pub mod texel;

pub use dimensions::calculate_new_dimensions;
pub use engine::ANSIfier;
pub use error::EngineError;
pub use glyphs::{Blocks, Glyph, Palette, count_foreground_pixels};
pub use raster::{Rgb, RgbRaster, Rgba, RgbaRaster};
pub use texel::{ColorId, Point, Texel};
