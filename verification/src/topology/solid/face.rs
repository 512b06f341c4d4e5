use vstd::prelude::*;

use super::edge_loop::EdgeLoopKey;
use crate::geometry::surface::PlanarSurface;
use crate::geometry::vector::Vec3;

verus! {

/// The key of a [`Face`] in a solid.
#[derive(Clone, Copy, PartialEq, Eq, Structural, Debug, Hash)]
pub struct FaceKey {
    pub(crate) data: u64,
}

/// A topological face.
#[derive(Clone, Debug)]
pub struct Face {
    /// The key to outer (bounding) loop of this face
    pub outer: EdgeLoopKey,
    /// A list of keys to the inner loops (rings) of this face
    pub inner: Vec<EdgeLoopKey>,
    /// The surface of this face
    pub surface: PlanarSurface,
}

impl Face {
    /// New empty face bounded by `boundary`.
    ///
    /// Surface is initialized with 0, 0, 0
    pub fn new(boundary: EdgeLoopKey) -> (f: Self)
        ensures
            f.outer == boundary,
            f.inner@ == Seq::<EdgeLoopKey>::empty(),
            f.surface.eq.x.bits == 0,
            f.surface.eq.y.bits == 0,
            f.surface.eq.z.bits == 0,
    {
        Self {
            outer: boundary,
            inner: Vec::<EdgeLoopKey>::new(),
            surface: PlanarSurface { eq: Vec3::zero() },
        }
    }
}

} // verus!
