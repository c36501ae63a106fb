//! Block-linear GPU image layout: tiling descriptors, two-tier tiled address
//! translation, and copy routines between linear and tiled buffers, together
//! with the arithmetic and raster-format utilities they lean on.

#![allow(non_snake_case)]

pub mod addr;
pub mod copy;
pub mod extent;
pub mod format;
pub mod gr;
pub mod image;
pub mod math;
pub mod tiling;
pub mod version;
