//! The framebuffer, its colours, and the line rasterizer.

pub mod canvas;
pub mod color;
pub mod line;
pub mod ppm;
pub mod sink;
pub mod text;
pub mod vector;
