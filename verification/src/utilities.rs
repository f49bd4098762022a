//! Colors and PPM output, image texel addressing, Perlin tables and random numbers.

pub mod color;
pub mod image;
pub mod perlin;
pub mod random;
