//! Structure-of-arrays transform types.
//!
//! Rest poses are stored SoA-packed: each field holds one component for four
//! consecutive joints. The lanes carry IEEE-754 single-precision bit
//! patterns as `u32`, which keeps the archive codec bit-exact; numerical
//! consumers reinterpret the lanes as floating point.

use vstd::prelude::*;

verus! {

/// Four joints' worth of one scalar component, as IEEE-754 bit patterns.
#[derive(Debug, Clone, Copy, PartialEq, Eq, Structural)]
pub struct SoaFloat4 {
    pub x0: u32,
    pub x1: u32,
    pub x2: u32,
    pub x3: u32,
}

/// Four joints' worth of a 3-vector, SoA-packed.
#[derive(Debug, Clone, Copy, PartialEq, Eq, Structural)]
pub struct SoaVec3 {
    pub x: SoaFloat4,
    pub y: SoaFloat4,
    pub z: SoaFloat4,
}

/// Four joints' worth of a quaternion, SoA-packed.
#[derive(Debug, Clone, Copy, PartialEq, Eq, Structural)]
pub struct SoaQuat {
    pub x: SoaFloat4,
    pub y: SoaFloat4,
    pub z: SoaFloat4,
    pub w: SoaFloat4,
}

/// Four joints' worth of a local transform: translation, rotation, scale.
#[derive(Debug, Clone, Copy, PartialEq, Eq, Structural)]
pub struct SoaTransform {
    pub translation: SoaVec3,
    pub rotation: SoaQuat,
    pub scale: SoaVec3,
}

} // verus!
