//! # Topology Module
//!
//! Topology is how things are connected; the precise coordinates or "where
//! things are" are the [geometry module](crate::geometry)'s responsibility.
//!
//! A solid is read through [`TopologyRead`] and written through
//! [`TopologyWrite`]; the operators that keep a solid meaningful work on a
//! [`Topology`], a view into a solid.

pub mod solid;
pub mod euler;
pub mod view;

use vstd::prelude::*;

pub use solid::{Solid, SolidKey};
pub use solid::edge::{Edge, EdgeKey};
pub use solid::edge_loop::{EdgeLoop, EdgeLoopKey};
pub use solid::face::{Face, FaceKey};
pub use solid::half_edge::{HalfEdge, HalfEdgeKey, HalfEdgeNeighbors};
pub use solid::vertex::{Vertex, VertexKey};
pub use solid::storage::SLOT_CAPACITY;
pub use view::{
    face_loops, lemma_twin_twin, linked_after, linked_before, with_he_edge, with_he_loop, with_he_neighbors, with_loops_face, with_vertex_he,
    SolidView,
};

verus! {

/// Trait for read-only access to a solid
pub trait TopologyRead {
    /// What the solid holds: its elements, each by key.
    spec fn solid_view(&self) -> SolidView;

    /// Get a vertex from a key
    fn vertex(&self, key: VertexKey) -> (v: &Vertex)
        requires
            self.solid_view().vertices.dom().contains(key),
        ensures
            *v == self.solid_view().vertices[key],
    ;

    /// Get a half edge from a key
    fn half_edge(&self, key: HalfEdgeKey) -> (he: &HalfEdge)
        requires
            self.solid_view().half_edges.dom().contains(key),
        ensures
            *he == self.solid_view().half_edges[key],
    ;

    /// Get an edge from a key
    fn edge(&self, key: EdgeKey) -> (e: &Edge)
        requires
            self.solid_view().edges.dom().contains(key),
        ensures
            *e == self.solid_view().edges[key],
    ;

    /// Get an edge loop from a key
    fn edge_loop(&self, key: EdgeLoopKey) -> (l: &EdgeLoop)
        requires
            self.solid_view().edge_loops.dom().contains(key),
        ensures
            *l == self.solid_view().edge_loops[key],
    ;

    /// Get a face from a key
    fn face(&self, key: FaceKey) -> (f: &Face)
        requires
            self.solid_view().faces.dom().contains(key),
        ensures
            *f == self.solid_view().faces[key],
    ;

    /// Whether a linked half-edge has neighbors other than itself.
    fn he_has_neighbors(&self, key: HalfEdgeKey) -> (b: bool)
        requires
            self.solid_view().half_edges.dom().contains(key),
            self.solid_view().half_edges[key].neighbors is Some,
        ensures
            b == (self.solid_view().half_edges[key].next_key() != key),
    {
        // If next is different, prev must be different as well
        self.half_edge(key).get_next() != key
    }

    /// Whether the half-edge of a loop has no neighbors other than itself.
    fn edge_loop_is_empty(&self, key: EdgeLoopKey) -> (b: bool)
        requires
            self.solid_view().edge_loops.dom().contains(key),
            self.solid_view().half_edges.dom().contains(
                self.solid_view().edge_loops[key].half_edge,
            ),
            self.solid_view().half_edges[self.solid_view().edge_loops[key].half_edge].neighbors is Some,
        ensures
            b == self.solid_view().loop_is_empty(key),
    {
        let he_key = self.edge_loop(key).half_edge;
        !self.he_has_neighbors(he_key)
    }
}


/// Trait for read-write access to a solid
pub trait TopologyWrite: TopologyRead {
    /// Get a mutable vertex from a key
    fn vertex_mut(&mut self, key: VertexKey) -> (v: &mut Vertex)
        requires
            old(self).solid_view().vertices.dom().contains(key),
        ensures
            *v == old(self).solid_view().vertices[key],
            final(self).solid_view() == (SolidView {
                vertices: old(self).solid_view().vertices.insert(key, *final(v)),
                ..old(self).solid_view()
            }),
    ;

    /// Get a mutable half edge from a key
    fn half_edge_mut(&mut self, key: HalfEdgeKey) -> (he: &mut HalfEdge)
        requires
            old(self).solid_view().half_edges.dom().contains(key),
        ensures
            *he == old(self).solid_view().half_edges[key],
            final(self).solid_view() == (SolidView {
                half_edges: old(self).solid_view().half_edges.insert(key, *final(he)),
                ..old(self).solid_view()
            }),
    ;

    /// Get a mutable edge from a key
    fn edge_mut(&mut self, key: EdgeKey) -> (e: &mut Edge)
        requires
            old(self).solid_view().edges.dom().contains(key),
        ensures
            *e == old(self).solid_view().edges[key],
            final(self).solid_view() == (SolidView {
                edges: old(self).solid_view().edges.insert(key, *final(e)),
                ..old(self).solid_view()
            }),
    ;

    /// Get a mutable edge loop from a key
    fn edge_loop_mut(&mut self, key: EdgeLoopKey) -> (l: &mut EdgeLoop)
        requires
            old(self).solid_view().edge_loops.dom().contains(key),
        ensures
            *l == old(self).solid_view().edge_loops[key],
            final(self).solid_view() == (SolidView {
                edge_loops: old(self).solid_view().edge_loops.insert(key, *final(l)),
                ..old(self).solid_view()
            }),
    ;

    /// Get a mutable face from a key
    fn face_mut(&mut self, key: FaceKey) -> (f: &mut Face)
        requires
            old(self).solid_view().faces.dom().contains(key),
        ensures
            *f == old(self).solid_view().faces[key],
            final(self).solid_view() == (SolidView {
                faces: old(self).solid_view().faces.insert(key, *final(f)),
                ..old(self).solid_view()
            }),
    ;

    /// Add a vertex to the graph
    fn add_vertex(&mut self, vertex: Vertex) -> (key: VertexKey)
        requires
            old(self).solid_view().vertices.len() < SLOT_CAPACITY,
        ensures
            !old(self).solid_view().vertices.dom().contains(key),
            final(self).solid_view() == (SolidView {
                vertices: old(self).solid_view().vertices.insert(key, vertex),
                ..old(self).solid_view()
            }),
            final(self).solid_view().vertices.len() == old(self).solid_view().vertices.len() + 1,
    ;

    /// Move a vertex out of the graph.
    ///
    /// The vertex must no longer be associated with a half-edge.
    fn rm_vertex(&mut self, key: VertexKey) -> (vertex: Vertex)
        requires
            old(self).solid_view().vertices.dom().contains(key),
            old(self).solid_view().vertices[key].half_edge is None,
        ensures
            vertex == old(self).solid_view().vertices[key],
            final(self).solid_view() == (SolidView {
                vertices: old(self).solid_view().vertices.remove(key),
                ..old(self).solid_view()
            }),
            final(self).solid_view().vertices.len() + 1 == old(self).solid_view().vertices.len(),
    ;

    /// Add a half-edge to the graph.
    ///
    /// The half-edge becomes the one associated with its vertex, and its own
    /// neighbors are itself.
    fn add_half_edge(&mut self, half_edge: HalfEdge) -> (key: HalfEdgeKey)
        requires
            old(self).solid_view().half_edges.len() < SLOT_CAPACITY,
            old(self).solid_view().vertices.dom().contains(half_edge.vertex),
        ensures
            !old(self).solid_view().half_edges.dom().contains(key),
            final(self).solid_view() == (SolidView {
                vertices: with_vertex_he(
                    old(self).solid_view().vertices,
                    half_edge.vertex,
                    Some(key),
                ),
                half_edges: old(self).solid_view().half_edges.insert(
                    key,
                    HalfEdge {
                        neighbors: Some(HalfEdgeNeighbors { next: key, prev: key }),
                        ..half_edge
                    },
                ),
                ..old(self).solid_view()
            }),
            final(self).solid_view().half_edges.len() == old(self).solid_view().half_edges.len()
                + 1,
    ;

    /// Move a half-edge out of the graph; its vertex is left without an
    /// associated half-edge.
    ///
    /// The half-edge must have no neighbors other than itself and belong to
    /// no edge and no loop.
    fn rm_half_edge(&mut self, key: HalfEdgeKey) -> (half_edge: HalfEdge)
        requires
            old(self).solid_view().linked(key),
            old(self).solid_view().next(key) == key,
            old(self).solid_view().half_edges[key].edge is None,
            old(self).solid_view().half_edges[key].edge_loop is None,
            old(self).solid_view().vertices.dom().contains(
                old(self).solid_view().half_edges[key].vertex,
            ),
        ensures
            half_edge == old(self).solid_view().half_edges[key],
            final(self).solid_view() == (SolidView {
                vertices: with_vertex_he(old(self).solid_view().vertices, half_edge.vertex, None),
                half_edges: old(self).solid_view().half_edges.remove(key),
                ..old(self).solid_view()
            }),
            final(self).solid_view().half_edges.len() + 1 == old(
                self,
            ).solid_view().half_edges.len(),
    ;

    /// Add an edge to the graph; both its half-edges get it as their edge.
    fn add_edge(&mut self, edge: Edge) -> (key: EdgeKey)
        requires
            old(self).solid_view().edges.len() < SLOT_CAPACITY,
            old(self).solid_view().half_edges.dom().contains(edge.pos),
            old(self).solid_view().half_edges.dom().contains(edge.neg),
        ensures
            !old(self).solid_view().edges.dom().contains(key),
            final(self).solid_view() == (SolidView {
                half_edges: with_he_edge(
                    with_he_edge(old(self).solid_view().half_edges, edge.pos, Some(key)),
                    edge.neg,
                    Some(key),
                ),
                edges: old(self).solid_view().edges.insert(key, edge),
                ..old(self).solid_view()
            }),
            final(self).solid_view().edges.len() == old(self).solid_view().edges.len() + 1,
    ;

    /// Move an edge out of the graph; its half-edges are left without an edge.
    fn rm_edge(&mut self, key: EdgeKey) -> (edge: Edge)
        requires
            old(self).solid_view().edges.dom().contains(key),
            old(self).solid_view().half_edges.dom().contains(
                old(self).solid_view().edges[key].pos,
            ),
            old(self).solid_view().half_edges.dom().contains(
                old(self).solid_view().edges[key].neg,
            ),
        ensures
            edge == old(self).solid_view().edges[key],
            final(self).solid_view() == (SolidView {
                half_edges: with_he_edge(
                    with_he_edge(old(self).solid_view().half_edges, edge.neg, None),
                    edge.pos,
                    None,
                ),
                edges: old(self).solid_view().edges.remove(key),
                ..old(self).solid_view()
            }),
            final(self).solid_view().edges.len() + 1 == old(self).solid_view().edges.len(),
    ;

    /// Add an edge loop to the graph; its half-edge gets it as its loop.
    fn add_edge_loop(&mut self, edge_loop: EdgeLoop) -> (key: EdgeLoopKey)
        requires
            old(self).solid_view().edge_loops.len() < SLOT_CAPACITY,
            old(self).solid_view().half_edges.dom().contains(edge_loop.half_edge),
        ensures
            !old(self).solid_view().edge_loops.dom().contains(key),
            final(self).solid_view() == (SolidView {
                half_edges: with_he_loop(
                    old(self).solid_view().half_edges,
                    edge_loop.half_edge,
                    Some(key),
                ),
                edge_loops: old(self).solid_view().edge_loops.insert(key, edge_loop),
                ..old(self).solid_view()
            }),
            final(self).solid_view().edge_loops.len() == old(self).solid_view().edge_loops.len()
                + 1,
    ;

    /// Move an edge loop out of the graph; its half-edge is left without a loop.
    ///
    /// The loop's half-edge must have no neighbors other than itself, and the
    /// loop must belong to no face.
    fn rm_edge_loop(&mut self, key: EdgeLoopKey) -> (edge_loop: EdgeLoop)
        requires
            old(self).solid_view().edge_loops.dom().contains(key),
            old(self).solid_view().linked(old(self).solid_view().edge_loops[key].half_edge),
            old(self).solid_view().loop_is_empty(key),
            old(self).solid_view().edge_loops[key].face is None,
        ensures
            edge_loop == old(self).solid_view().edge_loops[key],
            final(self).solid_view() == (SolidView {
                half_edges: with_he_loop(
                    old(self).solid_view().half_edges,
                    edge_loop.half_edge,
                    None,
                ),
                edge_loops: old(self).solid_view().edge_loops.remove(key),
                ..old(self).solid_view()
            }),
            final(self).solid_view().edge_loops.len() + 1 == old(
                self,
            ).solid_view().edge_loops.len(),
    ;

    /// Add a face to the graph; each of its loops gets it as its face.
    fn add_face(&mut self, face: Face) -> (key: FaceKey)
        requires
            old(self).solid_view().faces.len() < SLOT_CAPACITY,
            forall|i: int|
                0 <= i < face_loops(face).len() ==> old(
                    self,
                ).solid_view().edge_loops.dom().contains(#[trigger] face_loops(face)[i]),
        ensures
            !old(self).solid_view().faces.dom().contains(key),
            final(self).solid_view() == (SolidView {
                edge_loops: with_loops_face(
                    old(self).solid_view().edge_loops,
                    face_loops(face),
                    Some(key),
                ),
                faces: old(self).solid_view().faces.insert(key, face),
                ..old(self).solid_view()
            }),
            final(self).solid_view().faces.len() == old(self).solid_view().faces.len() + 1,
    ;

    /// Move a face out of the graph; its loops are left without a face.
    fn rm_face(&mut self, key: FaceKey) -> (face: Face)
        requires
            old(self).solid_view().faces.dom().contains(key),
            forall|i: int|
                0 <= i < face_loops(old(self).solid_view().faces[key]).len() ==> old(
                    self,
                ).solid_view().edge_loops.dom().contains(
                    #[trigger] face_loops(old(self).solid_view().faces[key])[i],
                ),
        ensures
            face == old(self).solid_view().faces[key],
            final(self).solid_view() == (SolidView {
                edge_loops: with_loops_face(
                    old(self).solid_view().edge_loops,
                    face_loops(face),
                    None,
                ),
                faces: old(self).solid_view().faces.remove(key),
                ..old(self).solid_view()
            }),
            final(self).solid_view().faces.len() + 1 == old(self).solid_view().faces.len(),
    ;

    /// Set the neighbors of a half-edge.
    ///
    /// The neighbors are either both the half-edge itself or both other
    /// half-edges.
    fn set_he_neighbors(&mut self, he_key: HalfEdgeKey, neighbors: HalfEdgeNeighbors)
        requires
            old(self).solid_view().half_edges.dom().contains(he_key),
            (neighbors.prev == he_key) == (neighbors.next == he_key),
        ensures
            final(self).solid_view() == (SolidView {
                half_edges: with_he_neighbors(
                    old(self).solid_view().half_edges,
                    he_key,
                    neighbors,
                ),
                ..old(self).solid_view()
            }),
    ;
}

impl<'a, T: TopologyRead> TopologyRead for &'a T {
    open spec fn solid_view(&self) -> SolidView {
        (**self).solid_view()
    }

    fn vertex(&self, key: VertexKey) -> (v: &Vertex) {
        (**self).vertex(key)
    }

    fn half_edge(&self, key: HalfEdgeKey) -> (he: &HalfEdge) {
        (**self).half_edge(key)
    }

    fn edge(&self, key: EdgeKey) -> (e: &Edge) {
        (**self).edge(key)
    }

    fn edge_loop(&self, key: EdgeLoopKey) -> (l: &EdgeLoop) {
        (**self).edge_loop(key)
    }

    fn face(&self, key: FaceKey) -> (f: &Face) {
        (**self).face(key)
    }
}

impl<'a, T: TopologyRead> TopologyRead for &'a mut T {
    open spec fn solid_view(&self) -> SolidView {
        (**self).solid_view()
    }

    fn vertex(&self, key: VertexKey) -> (v: &Vertex) {
        (**self).vertex(key)
    }

    fn half_edge(&self, key: HalfEdgeKey) -> (he: &HalfEdge) {
        (**self).half_edge(key)
    }

    fn edge(&self, key: EdgeKey) -> (e: &Edge) {
        (**self).edge(key)
    }

    fn edge_loop(&self, key: EdgeLoopKey) -> (l: &EdgeLoop) {
        (**self).edge_loop(key)
    }

    fn face(&self, key: FaceKey) -> (f: &Face) {
        (**self).face(key)
    }
}

impl<'a, T: TopologyWrite> TopologyWrite for &'a mut T {
    fn vertex_mut(&mut self, key: VertexKey) -> (v: &mut Vertex) {
        (**self).vertex_mut(key)
    }

    fn half_edge_mut(&mut self, key: HalfEdgeKey) -> (he: &mut HalfEdge) {
        (**self).half_edge_mut(key)
    }

    fn edge_mut(&mut self, key: EdgeKey) -> (e: &mut Edge) {
        (**self).edge_mut(key)
    }

    fn edge_loop_mut(&mut self, key: EdgeLoopKey) -> (l: &mut EdgeLoop) {
        (**self).edge_loop_mut(key)
    }

    fn face_mut(&mut self, key: FaceKey) -> (f: &mut Face) {
        (**self).face_mut(key)
    }

    fn add_vertex(&mut self, vertex: Vertex) -> (key: VertexKey) {
        (**self).add_vertex(vertex)
    }

    fn rm_vertex(&mut self, key: VertexKey) -> (vertex: Vertex) {
        (**self).rm_vertex(key)
    }

    fn add_half_edge(&mut self, half_edge: HalfEdge) -> (key: HalfEdgeKey) {
        (**self).add_half_edge(half_edge)
    }

    fn rm_half_edge(&mut self, key: HalfEdgeKey) -> (half_edge: HalfEdge) {
        (**self).rm_half_edge(key)
    }

    fn add_edge(&mut self, edge: Edge) -> (key: EdgeKey) {
        (**self).add_edge(edge)
    }

    fn rm_edge(&mut self, key: EdgeKey) -> (edge: Edge) {
        (**self).rm_edge(key)
    }

    fn add_edge_loop(&mut self, edge_loop: EdgeLoop) -> (key: EdgeLoopKey) {
        (**self).add_edge_loop(edge_loop)
    }

    fn rm_edge_loop(&mut self, key: EdgeLoopKey) -> (edge_loop: EdgeLoop) {
        (**self).rm_edge_loop(key)
    }

    fn add_face(&mut self, face: Face) -> (key: FaceKey) {
        (**self).add_face(face)
    }

    fn rm_face(&mut self, key: FaceKey) -> (face: Face) {
        (**self).rm_face(key)
    }

    fn set_he_neighbors(&mut self, he_key: HalfEdgeKey, neighbors: HalfEdgeNeighbors) {
        (**self).set_he_neighbors(he_key, neighbors)
    }
}

/// Topology accessor/context for `Solid` or a solid-like
pub struct Topology<S> {
    /// The solid this context reads, and writes where `S` allows it.
    pub solid: S,
}

impl<S: TopologyRead> View for Topology<S> {
    type V = SolidView;

    open spec fn view(&self) -> SolidView {
        self.solid.solid_view()
    }
}

impl<S: TopologyRead> Topology<S> {
    /// The twin of `he_key`, or nothing when it belongs to no edge.
    pub open spec fn twin_key_spec(&self, he_key: HalfEdgeKey) -> Option<HalfEdgeKey> {
        if self@.half_edges[he_key].edge is Some {
            Some(self@.twin(he_key))
        } else {
            None
        }
    }

    /// Get the key to the twin half-edge of a half-edge, if it exists
    pub fn he_twin_key(&self, he_key: HalfEdgeKey) -> (twin: Option<HalfEdgeKey>)
        requires
            self@.half_edges.dom().contains(he_key),
            self@.half_edges[he_key].edge is Some ==> self@.has_twin(he_key),
        ensures
            twin == self.twin_key_spec(he_key),
            twin is Some <==> self@.half_edges[he_key].edge is Some,
            twin is Some ==> {
                let e = self@.edges[self@.half_edges[he_key].edge->Some_0];
                &&& he_key == e.pos ==> twin == Some(e.neg)
                &&& he_key != e.pos ==> twin == Some(e.pos)
            },
    {
        let he = self.solid.half_edge(he_key);
        let edge_key = he.edge?;
        let edge = self.solid.edge(edge_key);

        Some(edge.get_twin(he_key))
    }

    /// Get the twin half-edge of a half-edge, if it exists
    pub fn he_twin(&self, he_key: HalfEdgeKey) -> (twin: Option<&HalfEdge>)
        requires
            self@.half_edges.dom().contains(he_key),
            self@.half_edges[he_key].edge is Some ==> {
                &&& self@.has_twin(he_key)
                &&& self@.half_edges.dom().contains(self@.twin(he_key))
            },
        ensures
            twin == (match self.twin_key_spec(he_key) {
                Some(k) => Some(&self@.half_edges[k]),
                None => None,
            }),
            twin is Some <==> self@.half_edges[he_key].edge is Some,
            twin is Some ==> {
                let e = self@.edges[self@.half_edges[he_key].edge->Some_0];
                &&& he_key == e.pos ==> *twin->Some_0 == self@.half_edges[e.neg]
                &&& he_key != e.pos ==> *twin->Some_0 == self@.half_edges[e.pos]
            },
    {
        Some(self.solid.half_edge(self.he_twin_key(he_key)?))
    }
}

/// In a valid solid, the twin that `he_twin_key` gives for a half-edge of
/// an edge is the other half-edge of that edge: the negative one for the
/// positive one, the positive one for the negative one, never the half-edge
/// itself; it is present and belongs to the same edge. A half-edge of no
/// edge has no twin.
pub proof fn lemma_twin_key_is_other_half<S: TopologyRead>(t: Topology<S>, h: HalfEdgeKey)
    requires
        t@.is_valid(),
        t@.half_edges.dom().contains(h),
    ensures
        t@.half_edges[h].edge is None ==> t.twin_key_spec(h) is None,
        t@.half_edges[h].edge is Some ==> {
            let e = t@.edges[t@.half_edges[h].edge->Some_0];
            let k = t.twin_key_spec(h)->Some_0;
            &&& t.twin_key_spec(h) is Some
            &&& k != h
            &&& h == e.pos ==> k == e.neg
            &&& h == e.neg ==> k == e.pos
            &&& t@.half_edges.dom().contains(k)
            &&& t@.half_edges[k].edge == t@.half_edges[h].edge
        },
{
    if t@.half_edges[h].edge is Some {
        lemma_twin_twin(t@, h);
    }
}

/// In a valid solid, the twin of the twin of a half-edge of an edge is that
/// half-edge.
pub proof fn lemma_twin_key_of_twin_key<S: TopologyRead>(t: Topology<S>, h: HalfEdgeKey)
    requires
        t@.is_valid(),
        t@.half_edges.dom().contains(h),
        t@.half_edges[h].edge is Some,
    ensures
        t.twin_key_spec(h) is Some,
        t.twin_key_spec(t.twin_key_spec(h)->Some_0) == Some(h),
{
    lemma_twin_twin(t@, h);
}

impl<S: TopologyWrite> Topology<S> {
    /// Get the mutable twin half-edge of a half-edge, if it exists
    pub fn he_twin_mut(&mut self, he_key: HalfEdgeKey) -> (twin: Option<&mut HalfEdge>)
        requires
            old(self)@.half_edges.dom().contains(he_key),
            old(self)@.half_edges[he_key].edge is Some ==> {
                &&& old(self)@.has_twin(he_key)
                &&& old(self)@.half_edges.dom().contains(old(self)@.twin(he_key))
            },
        ensures
            twin is Some == (old(self)@.half_edges[he_key].edge is Some),
            twin is None ==> final(self)@ == old(self)@,
            twin is Some ==> *twin->Some_0 == old(self)@.half_edges[old(self)@.twin(he_key)],
            twin is Some ==> {
                let e = old(self)@.edges[old(self)@.half_edges[he_key].edge->Some_0];
                let k = if he_key == e.pos {
                    e.neg
                } else {
                    e.pos
                };
                &&& *twin->Some_0 == old(self)@.half_edges[k]
                &&& final(self)@ == (SolidView {
                    half_edges: old(self)@.half_edges.insert(k, *final(twin->Some_0)),
                    ..old(self)@
                })
            },
            twin is Some ==> final(self)@ == (SolidView {
                half_edges: old(self)@.half_edges.insert(
                    old(self)@.twin(he_key),
                    *final(twin->Some_0),
                ),
                ..old(self)@
            }),
    {
        Some(self.solid.half_edge_mut(self.he_twin_key(he_key)?))
    }

    /// Insert a half-edge into a loop after a specified half-edge
    ///
    /// A half-edge alone in its loop, inserted after itself, leaves the loop as it was.
    pub fn insert_he_after(&mut self, he_key: HalfEdgeKey, target_key: HalfEdgeKey)
        requires
            old(self)@.linked(target_key),
            old(self)@.linked(old(self)@.next(target_key)),
            old(self)@.half_edges.dom().contains(he_key),
            (he_key == target_key) == (he_key == old(self)@.next(target_key)),
        ensures
            final(self)@ == (SolidView {
                half_edges: linked_after(old(self)@.half_edges, he_key, target_key),
                ..old(self)@
            }),
    {
        let target = self.solid.half_edge(target_key);
        let target_loop = target.edge_loop;
        let next_key = target.get_next();

        // configure he's neighbors
        let he_neigh = HalfEdgeNeighbors { prev: target_key, next: next_key };

        // now set neighbors
        let he = self.solid.half_edge_mut(he_key);
        he.edge_loop = target_loop;

        self.solid.set_he_neighbors(he_key, he_neigh);
        self.solid.half_edge_mut(target_key).set_next(he_key);
        self.solid.half_edge_mut(next_key).set_prev(he_key);
        proof {
            assert(self@.half_edges =~= linked_after(old(self)@.half_edges, he_key, target_key));
        }
    }

    /// Insert a half-edge into a loop before a specified half-edge
    ///
    /// A half-edge alone in its loop, inserted before itself, leaves the loop as it was.
    pub fn insert_he_before(&mut self, he_key: HalfEdgeKey, target_key: HalfEdgeKey)
        requires
            old(self)@.linked(target_key),
            old(self)@.linked(old(self)@.prev(target_key)),
            old(self)@.half_edges.dom().contains(he_key),
            (he_key == target_key) == (he_key == old(self)@.prev(target_key)),
        ensures
            final(self)@ == (SolidView {
                half_edges: linked_before(old(self)@.half_edges, he_key, target_key),
                ..old(self)@
            }),
    {
        let target = self.solid.half_edge(target_key);
        let target_loop = target.edge_loop;
        let prev_key = target.get_prev();

        // configure he's neighbors
        let he_neigh = HalfEdgeNeighbors { prev: prev_key, next: target_key };

        // now set neighbors
        let he = self.solid.half_edge_mut(he_key);
        he.edge_loop = target_loop;
        self.solid.set_he_neighbors(he_key, he_neigh);
        self.solid.half_edge_mut(prev_key).set_next(he_key);
        self.solid.half_edge_mut(target_key).set_prev(he_key);
        proof {
            assert(self@.half_edges =~= linked_before(old(self)@.half_edges, he_key, target_key));
        }
    }

    /// Set the origin half-edge of a loop
    pub fn set_loop_origin(&mut self, edge_loop: EdgeLoopKey, origin: HalfEdgeKey)
        requires
            old(self)@.edge_loops.dom().contains(edge_loop),
        ensures
            final(self)@ == (SolidView {
                edge_loops: old(self)@.edge_loops.insert(
                    edge_loop,
                    EdgeLoop { half_edge: origin, ..old(self)@.edge_loops[edge_loop] },
                ),
                ..old(self)@
            }),
    {
        self.solid.edge_loop_mut(edge_loop).half_edge = origin;
    }
}

} // verus!
