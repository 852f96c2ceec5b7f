//! Core logic of a small ray-tracing renderer: the text format of mesh
//! assets, the raster image encoding, and the pixel enumeration that
//! drives the per-pixel rendering loop.
//!
//! The floating-point geometry (vectors, intersection tests, shading)
//! lives with the binary that embeds this library; everything here is
//! exact byte- and integer-level logic with full functional contracts.

pub mod numerals;
pub mod obj;
pub mod ppm;
pub mod raster;
pub mod text;
