//! A software rasterizer: a pixel framebuffer, Bresenham lines, and
//! depth-tested triangle fill with flat or textured shading.
//!
//! Every function in this crate is verified against the contract written
//! next to it; the few calls into the `image` crate sit behind small
//! wrappers whose contracts are assumed.

pub mod raster;
pub mod rendering;
