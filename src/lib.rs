//! A software rasterizer working on integer screen coordinates: line drawing,
//! barycentric triangle filling with a depth test and texture sampling, and
//! flat shading of mesh faces.
pub mod arith;
pub mod line;
pub mod model;
pub mod obj;
pub mod rasterizer;
pub mod render;
pub mod screen;
pub mod shading;
pub mod triangle;
pub mod util;
pub mod vec2;
pub mod vec3;
