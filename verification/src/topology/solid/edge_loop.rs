use vstd::prelude::*;

use super::face::FaceKey;
use super::half_edge::HalfEdgeKey;

verus! {

/// The key of an [`EdgeLoop`] in a solid.
#[derive(Clone, Copy, PartialEq, Eq, Structural, Debug, Hash)]
pub struct EdgeLoopKey {
    pub(crate) data: u64,
}

/// A loop of [HalfEdges](super::half_edge::HalfEdge).
#[derive(Clone, Copy, PartialEq, Eq, Structural, Debug)]
pub struct EdgeLoop {
    /// A key to a half-edge belonging to this loop
    pub half_edge: HalfEdgeKey,
    /// The face associated with this loop
    pub face: Option<FaceKey>,
}

impl EdgeLoop {
    /// Create a new edge loop containing a halfedge
    pub fn new(half_edge: HalfEdgeKey) -> (l: Self)
        ensures
            l.half_edge == half_edge,
            l.face is None,
    {
        Self { half_edge, face: None }
    }
}

} // verus!
