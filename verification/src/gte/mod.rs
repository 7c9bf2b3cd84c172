//! Fixed-point geometry: vectors, matrices, and the arithmetic around the
//! Geometry Transformation Engine.

pub mod laws;
pub mod math;
pub mod normalize;
pub mod registers;
pub mod scene;
pub mod transform;
