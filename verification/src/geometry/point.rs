use vstd::prelude::*;

use crate::scalar::Real;

verus! {

/// A point in 3-dimensional space.
#[derive(Clone, Copy, PartialEq, Eq, Structural, Debug)]
pub struct Point {
    pub x: Real,
    pub y: Real,
    pub z: Real,
}

impl Point {
    /// The point with coordinates `(x, y, z)`.
    pub fn new(x: Real, y: Real, z: Real) -> (p: Self)
        ensures
            p.x == x,
            p.y == y,
            p.z == z,
    {
        Self { x, y, z }
    }
}

} // verus!
