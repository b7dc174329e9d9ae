//! A ray-tracing renderer's verified core: the pixel grid, the scan for the
//! nearest hit among a scene's objects, the layout of a
//! parallel render over that grid, and the PPM encoding of its result.
pub mod image;
pub mod ppm;
pub mod render;
pub mod scene;

pub use image::Image;
