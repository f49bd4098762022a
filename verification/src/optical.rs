//! Camera render order and texture parity.

pub mod camera;
pub mod texture;
