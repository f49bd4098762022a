//! How a bounding volume hierarchy divides its objects.

pub mod bvh;
