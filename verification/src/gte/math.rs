//! Vectors and matrices of fixed-point numbers.

use vstd::prelude::*;

verus! {

/// A vector of three 16-bit numbers, usually Q3.12.
#[derive(Clone, Copy, Debug, PartialEq, Eq, Structural)]
pub struct Vec3I16 {
    pub x: i16,
    pub y: i16,
    pub z: i16,
}

impl Vec3I16 {
    /// The zero vector.
    pub fn zero() -> (v: Vec3I16)
        ensures
            v == (Vec3I16 { x: 0, y: 0, z: 0 }),
    {
        Vec3I16 { x: 0, y: 0, z: 0 }
    }

    pub fn new(x: i16, y: i16, z: i16) -> (v: Vec3I16)
        ensures
            v == (Vec3I16 { x, y, z }),
    {
        Vec3I16 { x, y, z }
    }
}

/// A vector of three 32-bit numbers.
#[derive(Clone, Copy, Debug, PartialEq, Eq, Structural)]
pub struct Vec3I32 {
    pub x: i32,
    pub y: i32,
    pub z: i32,
}

impl Vec3I32 {
    /// The zero vector.
    pub fn zero() -> (v: Vec3I32)
        ensures
            v == (Vec3I32 { x: 0, y: 0, z: 0 }),
    {
        Vec3I32 { x: 0, y: 0, z: 0 }
    }

    pub fn new(x: i32, y: i32, z: i32) -> (v: Vec3I32)
        ensures
            v == (Vec3I32 { x, y, z }),
    {
        Vec3I32 { x, y, z }
    }
}

/// A matrix of nine 16-bit numbers, row by row.
#[derive(Clone, Copy, Debug, PartialEq, Eq)]
pub struct Mat3I16 {
    pub m: [[i16; 3]; 3],
}

} // verus!
