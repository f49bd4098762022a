//! The integer core of a path-tracing ray tracer: scene selection, PPM
//! encoding, the render order of pixels, Perlin permutation tables, checker
//! parity and image texel addressing.

pub mod hittable;
pub mod optical;
pub mod scene;
pub mod utilities;
