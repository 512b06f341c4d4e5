use vstd::prelude::*;

use super::half_edge::HalfEdgeKey;

verus! {

/// The key of an [`Edge`] in a solid.
#[derive(Clone, Copy, PartialEq, Eq, Structural, Debug, Hash)]
pub struct EdgeKey {
    pub(crate) data: u64,
}

/// An edge, used for the identification of two half-edges.
#[derive(Clone, Copy, PartialEq, Eq, Structural, Debug)]
pub struct Edge {
    /// The first half-edge in the positive direction
    pub pos: HalfEdgeKey,
    /// The second half-edge in the negative direction
    pub neg: HalfEdgeKey,
}

impl Edge {
    /// The other half-edge of this edge, seen from `key`.
    pub open spec fn twin_of(self, key: HalfEdgeKey) -> HalfEdgeKey {
        if key == self.pos {
            self.neg
        } else {
            self.pos
        }
    }

    /// Create a new edge.
    ///
    /// This edge will be set as the twins' parent upon being
    /// added into a solid
    pub fn new(pos: HalfEdgeKey, neg: HalfEdgeKey) -> (e: Self)
        ensures
            e.pos == pos,
            e.neg == neg,
    {
        Self { pos, neg }
    }

    /// Get the twin of a half-edge belonging to this Edge.
    ///
    /// The half-edge must be one of the two of this edge.
    pub fn get_twin(&self, key: HalfEdgeKey) -> (twin: HalfEdgeKey)
        requires
            key == self.pos || key == self.neg,
        ensures
            twin == self.twin_of(key),
            key == self.pos ==> twin == self.neg,
            key != self.pos ==> twin == self.pos,
    {
        if key == self.pos {
            self.neg
        } else {
            self.pos
        }
    }
}

/// The twin of the twin of a half-edge of an edge is that half-edge, when
/// the edge's two half-edges differ.
pub proof fn lemma_twin_of_twin(e: Edge, key: HalfEdgeKey)
    requires
        key == e.pos || key == e.neg,
        e.pos != e.neg,
    ensures
        e.twin_of(e.twin_of(key)) == key,
        e.twin_of(key) != key,
{
}

} // verus!
