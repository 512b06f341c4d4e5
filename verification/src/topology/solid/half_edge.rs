use vstd::prelude::*;

use super::edge::EdgeKey;
use super::edge_loop::EdgeLoopKey;
use super::vertex::VertexKey;

verus! {

/// The key of a [`HalfEdge`] in a solid.
#[derive(Clone, Copy, PartialEq, Eq, Structural, Debug, Hash)]
pub struct HalfEdgeKey {
    pub(crate) data: u64,
}

/// The neighbors of a half-edge.
#[derive(Clone, Copy, PartialEq, Eq, Structural, Debug)]
pub struct HalfEdgeNeighbors {
    pub next: HalfEdgeKey,
    pub prev: HalfEdgeKey,
}

/// A half-edge.
///
/// Has information about its neighbor so traversing connected half-edges is possible.
#[derive(Clone, Copy, PartialEq, Eq, Structural, Debug)]
pub struct HalfEdge {
    /// The [Vertex](super::vertex::Vertex) associated with this half-edge
    pub vertex: VertexKey,
    /// The keys to the next and previous half-edges
    pub neighbors: Option<HalfEdgeNeighbors>,
    /// The key to the edge associated with this half-edge
    pub edge: Option<EdgeKey>,
    /// The key to the loop this half-edge belongs to
    pub edge_loop: Option<EdgeLoopKey>,
}

impl HalfEdge {
    /// The next half-edge of a linked half-edge.
    pub open spec fn next_key(self) -> HalfEdgeKey {
        self.neighbors->Some_0.next
    }

    /// The previous half-edge of a linked half-edge.
    pub open spec fn prev_key(self) -> HalfEdgeKey {
        self.neighbors->Some_0.prev
    }

    /// Create an empty half-edge
    pub fn new(vertex: VertexKey) -> (he: Self)
        ensures
            he.vertex == vertex,
            he.neighbors is None,
            he.edge is None,
            he.edge_loop is None,
    {
        Self { vertex, neighbors: None, edge: None, edge_loop: None }
    }

    /// Get neighbors.
    ///
    /// The half-edge must have been linked (its neighbors set).
    pub fn get_neighbors(&self) -> (n: HalfEdgeNeighbors)
        requires
            self.neighbors is Some,
        ensures
            n == self.neighbors->Some_0,
    {
        self.neighbors.unwrap()
    }

    /// Get neighbors; the same as [`HalfEdge::get_neighbors`].
    pub fn neighbors(&self) -> (n: HalfEdgeNeighbors)
        requires
            self.neighbors is Some,
        ensures
            n == self.neighbors->Some_0,
    {
        self.get_neighbors()
    }

    /// Get next half-edge in the loop
    pub fn get_next(&self) -> (k: HalfEdgeKey)
        requires
            self.neighbors is Some,
        ensures
            k == self.next_key(),
    {
        self.get_neighbors().next
    }

    /// Get previous half-edge in the loop
    pub fn get_prev(&self) -> (k: HalfEdgeKey)
        requires
            self.neighbors is Some,
        ensures
            k == self.prev_key(),
    {
        self.get_neighbors().prev
    }

    /// Set the next half-edge, keeping the previous one.
    pub fn set_next(&mut self, next: HalfEdgeKey)
        requires
            old(self).neighbors is Some,
        ensures
            *final(self) == (HalfEdge {
                neighbors: Some(HalfEdgeNeighbors { next, prev: old(self).prev_key() }),
                ..*old(self)
            }),
    {
        let prev = self.get_prev();
        self.neighbors = Some(HalfEdgeNeighbors { next, prev });
    }

    /// Set the previous half-edge, keeping the next one.
    pub fn set_prev(&mut self, prev: HalfEdgeKey)
        requires
            old(self).neighbors is Some,
        ensures
            *final(self) == (HalfEdge {
                neighbors: Some(HalfEdgeNeighbors { next: old(self).next_key(), prev }),
                ..*old(self)
            }),
    {
        let next = self.get_next();
        self.neighbors = Some(HalfEdgeNeighbors { next, prev });
    }

    /// Get the loop this half-edge belongs to.
    pub fn get_edge_loop(&self) -> (l: EdgeLoopKey)
        requires
            self.edge_loop is Some,
        ensures
            l == self.edge_loop->Some_0,
    {
        self.edge_loop.unwrap()
    }
}

} // verus!
