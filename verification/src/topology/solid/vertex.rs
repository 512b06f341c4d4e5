use vstd::prelude::*;

use super::half_edge::HalfEdgeKey;
use crate::geometry::point::Point;

verus! {

/// The key of a [`Vertex`] in a solid.
#[derive(Clone, Copy, PartialEq, Eq, Structural, Debug, Hash)]
pub struct VertexKey {
    pub(crate) data: u64,
}

/// A topological vertex
#[derive(Clone, Copy, PartialEq, Eq, Structural, Debug)]
pub struct Vertex {
    /// Coordinate of the vertex
    pub coord: Point,
    /// [HalfEdge](super::half_edge::HalfEdge) associated with this vertex
    pub half_edge: Option<HalfEdgeKey>,
}

impl Vertex {
    /// Create a new unlinked vertex
    pub fn new(point: Point) -> (v: Self)
        ensures
            v.coord == point,
            v.half_edge is None,
    {
        Self { coord: point, half_edge: None }
    }
}

} // verus!
