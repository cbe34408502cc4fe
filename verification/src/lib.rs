//! A 2-D pixel buffer for a renderer, with parallel pixel synthesis and a
//! normalization-based visualization pipeline that turns a buffer of scalar
//! samples into a raster image.

mod frame;
mod lerp;
mod raster;
mod vis;

pub use frame::Frame;
pub use lerp::{inv_lerp, scale_to_level};
pub use vis::{Depthmap, Heatmap, ToBmp, VisError, MISS};
