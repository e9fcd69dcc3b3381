//! Windowed-spectrum-to-raster mapping: window segmentation, band layout and
//! the column fills that turn spectrum bins into pixels of an RGBA image.

pub mod column;
pub mod decode;
pub mod layout;
pub mod power;
pub mod raster;
pub mod render;
