//! Core of a small ray-tracing renderer: colors, the image plane a camera
//! projects through, the pixel buffer, and the render loop that fills it.
pub mod color;
pub mod scene;
pub mod renderer;
