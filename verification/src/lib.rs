//! Verified core of a Monte Carlo path tracer.
//!
//! The floating-point geometry and shading live in the surrounding
//! application; this crate holds the parts whose behaviour can be stated
//! and proved over plain integer values: pixel packing and the output
//! framebuffer, the Perlin permutation tables, the image-texture byte
//! buffer with its clamped lookups, mesh index topology, and the
//! construction of the bounding-volume hierarchy.

pub mod bvh;
pub mod mesh;
pub mod perlin;
pub mod renderer;
mod rng;
pub mod texture;
mod util;

pub use renderer::argb;
