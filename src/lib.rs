//! Paletted 4-bit bitmap post-processing: palette expansion, bilinear
//! upscaling, normal-map synthesis, Sobel edge detection and a neon glow
//! composite, all in exact integer arithmetic.

pub mod roots;
pub mod palette;
pub mod luma;
pub mod resample;
pub mod normals;
pub mod edges;
pub mod glow;
pub mod memory_map;
pub mod processor;
