//! Photomosaic engine: choosing, for every cell of a downsampled target image,
//! the library tile whose average colour is closest, and composing the canvas.

pub mod color;
pub mod raster;
pub mod catalog;
pub mod matcher;
pub mod mosaic;
pub mod codec;
pub mod response;
pub mod config;
pub mod store;
pub mod order;
