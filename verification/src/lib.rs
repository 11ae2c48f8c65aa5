//! A software rasterizer for triangular meshes.
//!
//! The engine draws straight segments and scan-converts textured triangles
//! into an in-memory framebuffer, resolving overlap with a per-pixel depth
//! test. Screen positions are whole pixels; texture coordinates and shading
//! intensities are exact fractions over fixed denominators, so every
//! computation is integer arithmetic with a proved meaning.

pub mod error;
pub mod geometry;
pub mod image;
pub mod laws;
pub mod obj;
pub mod ppm;
pub mod tga;
pub mod vec2;
pub mod vec3;
