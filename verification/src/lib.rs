//! Integer core of a Monte-Carlo path tracer.
//!
//! The floating-point geometry and shading live with the caller; this crate
//! holds the parts of the renderer that are exact: how image rows are dealt
//! out to workers, how finished pixels are assembled into an RGBA buffer, how
//! an image texture is addressed, how the gradient lattice of the noise
//! texture is hashed, and how a bounding volume hierarchy is laid out.

pub mod bvh;
pub mod color;
pub mod perlin;
pub mod random;
pub mod render;
pub mod scenes;
pub mod texture;
