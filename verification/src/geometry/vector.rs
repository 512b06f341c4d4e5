use vstd::prelude::*;

use crate::scalar::Real;

verus! {

/// A column vector in 3-dimensional space.
#[derive(Clone, Copy, PartialEq, Eq, Structural, Debug)]
pub struct Vec3 {
    pub x: Real,
    pub y: Real,
    pub z: Real,
}

impl Vec3 {
    /// Create a new zero vector.
    ///
    /// Each component is `0.0`, whose binary64 bit pattern is all zeros.
    pub fn zero() -> (v: Self)
        ensures
            v.x.bits == 0,
            v.y.bits == 0,
            v.z.bits == 0,
    {
        Self { x: Real { bits: 0 }, y: Real { bits: 0 }, z: Real { bits: 0 } }
    }
}

} // verus!
