//! Rendering of images as text made of unicode braille characters such as `\u{281d}`.
pub mod arith;
pub mod braille;
pub mod cli;
pub mod dithering;
pub mod raster;

pub use braille::{BrailleImg, Error};
pub use cli::DitheringOption;
pub use dithering::{Bayer2x2, Bayer4x4, Ditherer, Sierra2Row, Threshold};
pub use raster::{GrayRaster, RgbaRaster};
