use vstd::prelude::*;

use super::vector::Vec3;

verus! {

/// The plane that carries a face.
#[derive(Clone, Copy, PartialEq, Eq, Structural, Debug)]
pub struct PlanarSurface {
    /// face equation vector
    pub eq: Vec3,
}

} // verus!
