//! Rendering into an image buffer of the `image` crate.

pub mod depth;
pub mod frame;
pub mod line;
pub mod obj;
pub mod texture;
pub mod triangle;
pub mod wavefront;
