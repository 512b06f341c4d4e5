//! Low-level Euler operators: the smallest edits that keep a solid a solid.

use vstd::prelude::*;

pub mod split_vertex;

use super::super::solid::edge::{Edge, EdgeKey};
use super::super::solid::edge_loop::{EdgeLoop, EdgeLoopKey};
use super::super::solid::face::{Face, FaceKey};
use super::super::solid::half_edge::{HalfEdge, HalfEdgeKey, HalfEdgeNeighbors};
use super::super::solid::vertex::{Vertex, VertexKey};
use super::super::view::{
    face_loops, lemma_first_reach, lemma_next_injective, lemma_walk_add, lemma_walk_back, lemma_walk_same_next, lemma_twin_twin, lemma_walk_in_loop,
    lemma_walk_no_return, lemma_walk_prev, lemma_walk_same_links, with_vertex_he, SolidView,
};
use super::super::{Solid, Topology, TopologyRead, TopologyWrite, SLOT_CAPACITY};
use crate::geometry::point::Point;

verus! {

/// A collection of keys belonging to a skeletal primitive
///
/// Returned by `add_skeletal_primitive`
#[derive(Clone, Copy, PartialEq, Eq, Structural, Debug)]
pub struct SkeletalPrimtive {
    pub face: FaceKey,
    pub edge_loop: EdgeLoopKey,
    pub half_edge: HalfEdgeKey,
    pub vertex: VertexKey,
}

impl SolidView {
    /// The face `f` bounds a skeletal primitive: it has no inner loops, and
    /// its outer loop is a single half-edge, linked to itself and on no edge.
    pub open spec fn is_skeletal_primitive(self, f: FaceKey) -> bool {
        let outer = self.faces[f].outer;
        let he = self.edge_loops[outer].half_edge;
        &&& self.faces[f].inner@.len() == 0
        &&& self.loop_is_empty(outer)
        &&& self.half_edges[he].edge is None
    }

    /// Whether `after` is `self` with a new skeletal primitive `p` at `origin`:
    /// a vertex, a half-edge from it linked to itself, a loop holding that
    /// half-edge, and a face bounded by that loop, all under keys not in use
    /// before.
    pub open spec fn adds_skeletal_primitive(
        self,
        after: SolidView,
        p: SkeletalPrimtive,
        origin: Point,
    ) -> bool {
        &&& !self.vertices.dom().contains(p.vertex)
        &&& !self.half_edges.dom().contains(p.half_edge)
        &&& !self.edge_loops.dom().contains(p.edge_loop)
        &&& !self.faces.dom().contains(p.face)
        &&& after.vertices == self.vertices.insert(
            p.vertex,
            Vertex { coord: origin, half_edge: Some(p.half_edge) },
        )
        &&& after.half_edges == self.half_edges.insert(
            p.half_edge,
            HalfEdge {
                vertex: p.vertex,
                neighbors: Some(HalfEdgeNeighbors { next: p.half_edge, prev: p.half_edge }),
                edge: None,
                edge_loop: Some(p.edge_loop),
            },
        )
        &&& after.edges == self.edges
        &&& after.edge_loops == self.edge_loops.insert(
            p.edge_loop,
            EdgeLoop { half_edge: p.half_edge, face: Some(p.face) },
        )
        &&& after.faces.dom() == self.faces.dom().insert(p.face)
        &&& forall|f: FaceKey| #[trigger]
            self.faces.dom().contains(f) ==> after.faces[f] == self.faces[f]
        &&& after.faces[p.face].outer == p.edge_loop
        &&& after.faces[p.face].inner@.len() == 0
        &&& after.faces[p.face].surface.eq.x.bits == 0
        &&& after.faces[p.face].surface.eq.y.bits == 0
        &&& after.faces[p.face].surface.eq.z.bits == 0
    }

    /// Whether `after` is `self` with the skeletal primitive of face `f`
    /// taken out: the face, its outer loop, that loop's half-edge and that
    /// half-edge's vertex.
    pub open spec fn removes_skeletal_primitive(self, after: SolidView, f: FaceKey) -> bool {
        let l = self.faces[f].outer;
        let h = self.edge_loops[l].half_edge;
        let v = self.half_edges[h].vertex;
        after == (SolidView {
            vertices: self.vertices.remove(v),
            half_edges: self.half_edges.remove(h),
            edges: self.edges,
            edge_loops: self.edge_loops.remove(l),
            faces: self.faces.remove(f),
        })
    }
}

// skeletal primitives
impl<S: TopologyRead> Topology<S> {
    /// Check if the structure belonging to a face is a
    /// skeletal primitive
    pub fn is_skeletal_primitive(&self, face_key: FaceKey) -> (b: bool)
        requires
            self@.faces.dom().contains(face_key),
            self@.edge_loops.dom().contains(self@.faces[face_key].outer),
            self@.half_edges.dom().contains(
                self@.edge_loops[self@.faces[face_key].outer].half_edge,
            ),
            self@.faces[face_key].inner@.len() == 0 ==> self@.linked(
                self@.edge_loops[self@.faces[face_key].outer].half_edge,
            ),
        ensures
            b == self@.is_skeletal_primitive(face_key),
    {
        let outer_key = self.solid.face(face_key).outer;
        let outer = self.solid.edge_loop(outer_key);
        let he_key = outer.half_edge;
        let he = self.solid.half_edge(he_key);

        self.solid.face(face_key).inner.len() == 0 && self.solid.edge_loop_is_empty(outer_key)
            && he.edge.is_none()
    }
}

impl<S: TopologyWrite> Topology<S> {
    /// Create a new skeletal primitive from nothing: a lone vertex at
    /// `origin`, with an empty half-edge, loop and face.
    ///
    /// Returns the keys of what it created.
    pub fn add_skeletal_primitive(&mut self, origin: Point) -> (p: SkeletalPrimtive)
        requires
            old(self)@.vertices.len() < SLOT_CAPACITY,
            old(self)@.half_edges.len() < SLOT_CAPACITY,
            old(self)@.edge_loops.len() < SLOT_CAPACITY,
            old(self)@.faces.len() < SLOT_CAPACITY,
        ensures
            old(self)@.adds_skeletal_primitive(final(self)@, p, origin),
            final(self)@.is_skeletal_primitive(p.face),
    {
        // Add lone vertex
        let vertex = self.solid.add_vertex(Vertex::new(origin));
        // Add empty halfedge and an empty loop
        let half_edge = self.solid.add_half_edge(HalfEdge::new(vertex));
        let edge_loop = self.solid.add_edge_loop(EdgeLoop::new(half_edge));
        // Add empty face
        let face = self.solid.add_face(Face::new(edge_loop));

        let p = SkeletalPrimtive { face, edge_loop, half_edge, vertex };
        proof {
            let v0 = old(self)@;
            let v1 = self@;
            assert(v1.vertices =~= v0.vertices.insert(
                vertex,
                Vertex { coord: origin, half_edge: Some(half_edge) },
            ));
            assert(v1.half_edges =~= v0.half_edges.insert(
                half_edge,
                HalfEdge {
                    vertex,
                    neighbors: Some(HalfEdgeNeighbors { next: half_edge, prev: half_edge }),
                    edge: None,
                    edge_loop: Some(edge_loop),
                },
            ));
            assert(seq![edge_loop].add(v1.faces[face].inner@).contains(edge_loop)) by {
                assert(seq![edge_loop].add(v1.faces[face].inner@)[0] == edge_loop);
            }
            assert(v1.edge_loops =~= v0.edge_loops.insert(
                edge_loop,
                EdgeLoop { half_edge, face: Some(face) },
            ));
            assert(v1.faces.dom() =~= v0.faces.dom().insert(face));
        }
        p
    }

    /// Remove a skeletal primitive by specifying its face
    ///
    /// The face must belong to a skeletal primitive.
    pub fn rm_skeletal_primitive(&mut self, face_key: FaceKey)
        requires
            old(self)@.faces.dom().contains(face_key),
            old(self)@.edge_loops.dom().contains(old(self)@.faces[face_key].outer),
            old(self)@.linked(old(self)@.edge_loops[old(self)@.faces[face_key].outer].half_edge),
            old(self)@.vertices.dom().contains(
                old(self)@.half_edges[old(self)@.edge_loops[old(
                    self,
                )@.faces[face_key].outer].half_edge].vertex,
            ),
            old(self)@.is_skeletal_primitive(face_key),
        ensures
            old(self)@.removes_skeletal_primitive(final(self)@, face_key),
    {
        // check the loop is empty and has no edge
        proof {
            assert(self@.is_skeletal_primitive(face_key));
        }

        // ok, we're probably good
        let outer_key = self.solid.face(face_key).outer;
        let he_key = self.solid.edge_loop(outer_key).half_edge;
        let vtx_key = self.solid.half_edge(he_key).vertex;
        proof {
            let loops = seq![outer_key].add(self@.faces[face_key].inner@);
            assert forall|i: int| 0 <= i < loops.len() implies self@.edge_loops.dom().contains(
                #[trigger] loops[i],
            ) by {
                assert(i == 0);
            }
        }
        self.solid.rm_face(face_key);
        proof {
            let loops = seq![outer_key].add(old(self)@.faces[face_key].inner@);
            assert(loops[0] == outer_key);
        }
        self.solid.rm_edge_loop(outer_key);
        self.solid.rm_half_edge(he_key);
        self.solid.rm_vertex(vtx_key);
        proof {
            let v0 = old(self)@;
            let v1 = self@;
            assert(v1.vertices =~= v0.vertices.remove(vtx_key));
            assert(v1.half_edges =~= v0.half_edges.remove(he_key));
            assert(v1.edge_loops =~= v0.edge_loops.remove(outer_key));
            assert(v1.faces =~= v0.faces.remove(face_key));
        }
    }
}

/// Adding a skeletal primitive to a valid solid leaves it valid.
pub proof fn lemma_add_skeletal_primitive_keeps_valid(
    before: SolidView,
    after: SolidView,
    p: SkeletalPrimtive,
    origin: Point,
)
    requires
        before.is_valid(),
        before.adds_skeletal_primitive(after, p, origin),
    ensures
        after.is_valid(),
{
    lemma_add_skeletal_primitive_keeps_loops_connected(before, after, p, origin);
    let fl = face_loops(after.faces[p.face]);
    assert(fl.len() == 1);
    assert(fl[0] == p.edge_loop);
    assert(fl.contains(p.edge_loop));
    assert(after.is_finite());
    assert forall|h: HalfEdgeKey| after.half_edges.dom().contains(h) implies #[trigger] after.he_links_ok(h)
        && after.he_refs_ok(h) by {
        if h != p.half_edge {
            assert(before.he_links_ok(h));
            assert(before.he_refs_ok(h));
            if before.half_edges[h].edge is Some {
                assert(before.edge_ok(before.half_edges[h].edge->Some_0));
            }
        }
    }
    assert forall|h: HalfEdgeKey| after.half_edges.dom().contains(h) implies #[trigger] after.he_refs_ok(h) by {
        assert(after.he_links_ok(h));
    }
    assert forall|v: VertexKey| after.vertices.dom().contains(v) implies #[trigger] after.vertex_ok(v) by {
        if v != p.vertex {
            assert(before.vertex_ok(v));
        }
    }
    assert forall|e: EdgeKey| after.edges.dom().contains(e) implies #[trigger] after.edge_ok(e) by {
        assert(before.edge_ok(e));
    }
    assert forall|l: EdgeLoopKey| after.edge_loops.dom().contains(l) implies #[trigger] after.loop_ok(l) by {
        if l != p.edge_loop {
            assert(before.loop_ok(l));
            if before.edge_loops[l].face is Some {
                let f = before.edge_loops[l].face->Some_0;
                assert(after.faces[f] == before.faces[f]);
            }
        }
    }
    assert forall|f: FaceKey| after.faces.dom().contains(f) implies #[trigger] after.face_ok(f) by {
        if f != p.face {
            assert(before.face_ok(f));
            assert(after.faces[f] == before.faces[f]);
            assert forall|i: int| 0 <= i < face_loops(after.faces[f]).len() implies {
                &&& after.edge_loops.dom().contains(#[trigger] face_loops(after.faces[f])[i])
                &&& after.edge_loops[face_loops(after.faces[f])[i]].face == Some(f)
            } by {
                assert(before.edge_loops.dom().contains(face_loops(before.faces[f])[i]));
            }
        }
    }
}

/// Adding a skeletal primitive and then removing it by its face gives back
/// the solid as it was.
pub proof fn lemma_add_then_rm_skeletal_primitive(
    before: SolidView,
    middle: SolidView,
    after: SolidView,
    p: SkeletalPrimtive,
    origin: Point,
)
    requires
        before.adds_skeletal_primitive(middle, p, origin),
        middle.removes_skeletal_primitive(after, p.face),
    ensures
        after == before,
{
    assert(after.vertices =~= before.vertices);
    assert(after.half_edges =~= before.half_edges);
    assert(after.edge_loops =~= before.edge_loops);
    assert(after.faces =~= before.faces);
}

/// Removing a skeletal primitive from a valid solid leaves it valid, when
/// no other half-edge starts at its vertex or belongs to its loop.
pub proof fn lemma_rm_skeletal_primitive_keeps_valid(
    before: SolidView,
    after: SolidView,
    f: FaceKey,
)
    requires
        before.is_valid(),
        before.faces.dom().contains(f),
        before.is_skeletal_primitive(f),
        before.removes_skeletal_primitive(after, f),
        forall|h: HalfEdgeKey|
            #![trigger before.half_edges[h]]
            before.half_edges.dom().contains(h) && h != before.edge_loops[before.faces[f].outer].half_edge
                ==> {
                &&& before.half_edges[h].vertex != before.half_edges[before.edge_loops[before.faces[f].outer].half_edge].vertex
                &&& before.half_edges[h].edge_loop != Some(before.faces[f].outer)
            },
    ensures
        after.is_valid(),
{
    lemma_rm_skeletal_primitive_keeps_loops_connected(before, after, f);
    let l = before.faces[f].outer;
    let h = before.edge_loops[l].half_edge;
    let v = before.half_edges[h].vertex;
    let fl = face_loops(before.faces[f]);
    assert(fl[0] == l);
    assert(fl.len() == 1);
    assert forall|x: EdgeLoopKey| fl.contains(x) implies x == l by {
        let i = choose|i: int| 0 <= i < fl.len() && fl[i] == x;
        assert(i == 0);
    }
    assert(before.face_ok(f));
    assert(before.edge_loops.dom().contains(l));
    assert(before.loop_ok(l));
    assert(before.half_edges.dom().contains(h));
    assert(before.he_links_ok(h));
    assert(after.is_finite());
    assert forall|k: HalfEdgeKey| after.half_edges.dom().contains(k) implies #[trigger] after.he_links_ok(k) by {
        assert(before.he_links_ok(k));
        assert(before.he_links_ok(before.next(k)));
        assert(before.he_links_ok(before.prev(k)));
    }
    assert forall|k: HalfEdgeKey| after.half_edges.dom().contains(k) implies #[trigger] after.he_refs_ok(k) by {
        assert(before.he_refs_ok(k));
        assert(before.he_links_ok(k));
        if before.half_edges[k].edge is Some {
            assert(before.edge_ok(before.half_edges[k].edge->Some_0));
        }
    }
    assert forall|w: VertexKey| after.vertices.dom().contains(w) implies #[trigger] after.vertex_ok(w) by {
        assert(before.vertex_ok(w));
    }
    assert forall|e: EdgeKey| after.edges.dom().contains(e) implies #[trigger] after.edge_ok(e) by {
        assert(before.edge_ok(e));
    }
    assert forall|x: EdgeLoopKey| after.edge_loops.dom().contains(x) implies #[trigger] after.loop_ok(x) by {
        assert(before.loop_ok(x));
        if before.edge_loops[x].face is Some {
            let g = before.edge_loops[x].face->Some_0;
            if g == f {
                assert(x == l);
            }
        }
    }
    assert forall|g: FaceKey| after.faces.dom().contains(g) implies #[trigger] after.face_ok(g) by {
        assert(before.face_ok(g));
        assert forall|i: int| 0 <= i < face_loops(after.faces[g]).len() implies {
            &&& after.edge_loops.dom().contains(#[trigger] face_loops(after.faces[g])[i])
            &&& after.edge_loops[face_loops(after.faces[g])[i]].face == Some(g)
        } by {
            assert(before.edge_loops.dom().contains(face_loops(before.faces[g])[i]));
        }
    }
}

impl<S: TopologyRead> Topology<S> {
    /// Checks if the half-edge on the positive direction is a strut edge:
    /// its next half-edge is the negative one.
    pub fn edge_is_strut_pos(&self, edge_key: EdgeKey) -> (b: bool)
        requires
            self@.edges.dom().contains(edge_key),
            self@.linked(self@.edges[edge_key].pos),
        ensures
            b == (self@.next(self@.edges[edge_key].pos) == self@.edges[edge_key].neg),
    {
        let pos_key = self.solid.edge(edge_key).pos;
        let neg_key = self.solid.edge(edge_key).neg;
        let pos_neigh = self.solid.half_edge(pos_key).neighbors();

        pos_neigh.next == neg_key
    }

    /// Checks if the half-edge on the negative direction is a strut edge:
    /// its previous half-edge is the positive one.
    pub fn edge_is_strut_neg(&self, edge_key: EdgeKey) -> (b: bool)
        requires
            self@.edges.dom().contains(edge_key),
            self@.linked(self@.edges[edge_key].neg),
        ensures
            b == (self@.prev(self@.edges[edge_key].neg) == self@.edges[edge_key].pos),
    {
        let pos_key = self.solid.edge(edge_key).pos;
        let neg_key = self.solid.edge(edge_key).neg;
        let neg_neigh = self.solid.half_edge(neg_key).neighbors();

        neg_neigh.prev == pos_key
    }
}

/// `hs` with the loop of each of the first `n` half-edges walked from
/// `start` in `v` set to `l`.
pub open spec fn with_loop_along(
    hs: Map<HalfEdgeKey, HalfEdge>,
    v: SolidView,
    start: HalfEdgeKey,
    n: nat,
    l: EdgeLoopKey,
) -> Map<HalfEdgeKey, HalfEdge> {
    Map::new(
        |k: HalfEdgeKey| hs.dom().contains(k),
        |k: HalfEdgeKey|
            if v.walk_visits(start, k, n) {
                HalfEdge { edge_loop: Some(l), ..hs[k] }
            } else {
                hs[k]
            },
    )
}

impl SolidView {
    /// The half-edges after `split_face(start, end)`, where walking from
    /// `start` first reaches `end` after `n` steps, `hse` (from the vertex
    /// of `start`) and `hes` (from the vertex of `end`) are the new
    /// half-edges of edge `e`, and `nl` is the new loop.
    ///
    /// When `start` and `end` differ, the half-edges from `start` up to
    /// before `end` move to the new loop, closed by `hes` (which leads to
    /// `start`); the old loop is closed by `hse`, which leads to `end`. When
    /// they are the same, `hse` is linked in just before `start`, and `hes`
    /// is alone in the new loop.
    pub open spec fn split_face_half_edges(
        self,
        start: HalfEdgeKey,
        end: HalfEdgeKey,
        n: nat,
        hse: HalfEdgeKey,
        hes: HalfEdgeKey,
        e: EdgeKey,
        nl: EdgeLoopKey,
    ) -> Map<HalfEdgeKey, HalfEdge> {
        let p = self.prev(start);
        let q = self.prev(end);
        let hs = self.half_edges;
        Map::new(
            |k: HalfEdgeKey| hs.dom().contains(k) || k == hse || k == hes,
            |k: HalfEdgeKey|
                if k == hse {
                    HalfEdge {
                        vertex: hs[start].vertex,
                        neighbors: Some(
                            HalfEdgeNeighbors {
                                next: if start == end {
                                    start
                                } else {
                                    end
                                },
                                prev: p,
                            },
                        ),
                        edge: Some(e),
                        edge_loop: hs[end].edge_loop,
                    }
                } else if k == hes {
                    HalfEdge {
                        vertex: hs[end].vertex,
                        neighbors: Some(
                            if start == end {
                                HalfEdgeNeighbors { next: hes, prev: hes }
                            } else {
                                HalfEdgeNeighbors { next: start, prev: q }
                            },
                        ),
                        edge: Some(e),
                        edge_loop: Some(nl),
                    }
                } else {
                    let moved = HalfEdge {
                        edge_loop: if self.walk_visits(start, k, n) {
                            Some(nl)
                        } else {
                            hs[k].edge_loop
                        },
                        ..hs[k]
                    };
                    if start == end {
                        if k == p || k == start {
                            HalfEdge {
                                neighbors: Some(
                                    HalfEdgeNeighbors {
                                        next: if k == p {
                                            hse
                                        } else {
                                            hs[k].next_key()
                                        },
                                        prev: if k == start {
                                            hse
                                        } else {
                                            hs[k].prev_key()
                                        },
                                    },
                                ),
                                ..moved
                            }
                        } else {
                            moved
                        }
                    } else {
                        if k == p || k == q || k == start || k == end {
                            HalfEdge {
                                neighbors: Some(
                                    HalfEdgeNeighbors {
                                        next: if k == q {
                                            hes
                                        } else if k == p {
                                            hse
                                        } else {
                                            hs[k].next_key()
                                        },
                                        prev: if k == start {
                                            hes
                                        } else if k == end {
                                            hse
                                        } else {
                                            hs[k].prev_key()
                                        },
                                    },
                                ),
                                ..moved
                            }
                        } else {
                            moved
                        }
                    }
                },
        )
    }

    /// Whether `after` is `self` after `split_face(start, end)` returned
    /// `res`.
    pub open spec fn splits_face(
        self,
        after: SolidView,
        start: HalfEdgeKey,
        end: HalfEdgeKey,
        res: SplitFaceRes,
    ) -> bool {
        let hse = after.edges[res.edge].pos;
        let hes = after.edges[res.edge].neg;
        let n = choose|n: nat| self.walk_reaches(start, end, n);
        let l = self.half_edges[end].edge_loop->Some_0;
        &&& !self.half_edges.dom().contains(hse)
        &&& !self.half_edges.dom().contains(hes)
        &&& hse != hes
        &&& !self.edges.dom().contains(res.edge)
        &&& !self.edge_loops.dom().contains(res.edge_loop)
        &&& !self.faces.dom().contains(res.face)
        &&& after.vertices == with_vertex_he(
            with_vertex_he(self.vertices, self.half_edges[start].vertex, Some(hse)),
            self.half_edges[end].vertex,
            Some(hes),
        )
        &&& after.half_edges == self.split_face_half_edges(
            start,
            end,
            n,
            hse,
            hes,
            res.edge,
            res.edge_loop,
        )
        &&& after.edges == self.edges.insert(res.edge, Edge { pos: hse, neg: hes })
        &&& after.edge_loops == self.edge_loops.insert(
            l,
            EdgeLoop { half_edge: hse, ..self.edge_loops[l] },
        ).insert(res.edge_loop, EdgeLoop { half_edge: hes, face: Some(res.face) })
        &&& after.faces.dom() == self.faces.dom().insert(res.face)
        &&& forall|f: FaceKey| #[trigger]
            self.faces.dom().contains(f) ==> after.faces[f] == self.faces[f]
        &&& after.faces[res.face].outer == res.edge_loop
        &&& after.faces[res.face].inner@.len() == 0
        &&& after.faces[res.face].surface.eq.x.bits == 0
        &&& after.faces[res.face].surface.eq.y.bits == 0
        &&& after.faces[res.face].surface.eq.z.bits == 0
    }
}

// the same operators, called on a solid directly
impl Solid {
    /// Create a new skeletal primitive from nothing
    ///
    /// Returns the keys of the lone vertex, half-edge, loop and face it created.
    pub fn new_skeletal_primitive(&mut self, origin: Point) -> (p: SkeletalPrimtive)
        requires
            old(self).solid_view().vertices.len() < SLOT_CAPACITY,
            old(self).solid_view().half_edges.len() < SLOT_CAPACITY,
            old(self).solid_view().edge_loops.len() < SLOT_CAPACITY,
            old(self).solid_view().faces.len() < SLOT_CAPACITY,
        ensures
            old(self).solid_view().adds_skeletal_primitive((*final(self)).solid_view(), p, origin),
            (*final(self)).solid_view().is_skeletal_primitive(p.face),
    {
        let mut t = Topology { solid: self.take() };
        let p = t.add_skeletal_primitive(origin);
        *self = t.solid;
        p
    }

    /// Split a face between two vertices of two half-edges belonging to the same face.
    /// Half-edges in [start, end) are assigned to a new loop
    pub fn split_face(&mut self, start: HalfEdgeKey, end: HalfEdgeKey) -> (res: SplitFaceRes)
        requires
            old(self).solid_view().linked(start),
            old(self).solid_view().linked(end),
            exists|n: nat| old(self).solid_view().walk_reaches(start, end, n),
            old(self).solid_view().linked(old(self).solid_view().prev(start)),
            start != end ==> old(self).solid_view().linked(old(self).solid_view().prev(end)),
            old(self).solid_view().half_edges[end].edge_loop is Some,
            old(self).solid_view().edge_loops.dom().contains(
                old(self).solid_view().half_edges[end].edge_loop->Some_0,
            ),
            old(self).solid_view().vertices.dom().contains(
                old(self).solid_view().half_edges[start].vertex,
            ),
            old(self).solid_view().vertices.dom().contains(
                old(self).solid_view().half_edges[end].vertex,
            ),
            old(self).solid_view().half_edges.len() + 1 < SLOT_CAPACITY,
            old(self).solid_view().edges.len() < SLOT_CAPACITY,
            old(self).solid_view().edge_loops.len() < SLOT_CAPACITY,
            old(self).solid_view().faces.len() < SLOT_CAPACITY,
        ensures
            old(self).solid_view().splits_face((*final(self)).solid_view(), start, end, res),
    {
        let mut t = Topology { solid: self.take() };
        let res = t.split_face(start, end);
        *self = t.solid;
        res
    }
}

// Low level euler operators
impl<S: TopologyWrite> Topology<S> {
    /// Split a face between two vertices of two half-edges belonging to the same face.
    /// Half-edges in [start, end) are assigned to a new loop
    ///
    /// If used on the same half-edges, a new empty loop and a half-edge that has zero
    /// length which is inserted into the old loop are created, and are identified
    /// with an edge.
    pub fn split_face(&mut self, start: HalfEdgeKey, end: HalfEdgeKey) -> (res: SplitFaceRes)
        requires
            old(self)@.linked(start),
            old(self)@.linked(end),
            exists|n: nat| old(self)@.walk_reaches(start, end, n),
            old(self)@.linked(old(self)@.prev(start)),
            start != end ==> old(self)@.linked(old(self)@.prev(end)),
            old(self)@.half_edges[end].edge_loop is Some,
            old(self)@.edge_loops.dom().contains(old(self)@.half_edges[end].edge_loop->Some_0),
            old(self)@.vertices.dom().contains(old(self)@.half_edges[start].vertex),
            old(self)@.vertices.dom().contains(old(self)@.half_edges[end].vertex),
            old(self)@.half_edges.len() + 1 < SLOT_CAPACITY,
            old(self)@.edges.len() < SLOT_CAPACITY,
            old(self)@.edge_loops.len() < SLOT_CAPACITY,
            old(self)@.faces.len() < SLOT_CAPACITY,
        ensures
            old(self)@.splits_face(final(self)@, start, end, res),
    {
        let ghost v0 = self@;
        let ghost n = choose|n: nat| v0.walk_reaches(start, end, n);
        // create new half-edges
        let he_start_end = HalfEdge::new(self.solid.half_edge(start).vertex);
        let he_start_end = self.solid.add_half_edge(he_start_end);  // positive
        let he_end_start = HalfEdge::new(self.solid.half_edge(end).vertex);
        let he_end_start = self.solid.add_half_edge(he_end_start);  // negative

        // identify with edge
        let new_edge = self.solid.add_edge(Edge::new(he_start_end, he_end_start));

        // create new loop and face
        let new_loop = self.solid.add_edge_loop(EdgeLoop::new(he_end_start));
        let new_face = self.solid.add_face(Face::new(new_loop));
        let ghost v1 = self@;
        proof {
            assert forall|i: nat| i < n implies (#[trigger] v1.half_edges[v0.walk(
                start,
                i,
            )]).neighbors == v0.half_edges[v0.walk(start, i)].neighbors by {
                assert(v0.linked(v0.walk(start, i)));
            }
            lemma_walk_same_links(v0, v1, start, n);
            assert(with_loop_along(v1.half_edges, v0, start, 0, new_loop) =~= v1.half_edges);
            let fl = seq![new_loop].add(v1.faces[new_face].inner@);
            assert forall|l: EdgeLoopKey| fl.contains(l) == (l == new_loop) by {
                if l == new_loop {
                    assert(fl[0] == l);
                }
            }
            assert(v1.edge_loops =~= v0.edge_loops.insert(
                new_loop,
                EdgeLoop { half_edge: he_end_start, face: Some(new_face) },
            ));
            assert(!v0.walk_visits(start, end, n));
        }

        // reassign half-edges to new loop
        let mut he_key = start;
        let mut past_start = false;
        let ghost mut i: nat = 0;
        while he_key != end
            invariant
                v0.walk_reaches(start, end, n),
                i <= n,
                he_key == v0.walk(start, i),
                past_start == (i > 0),
                forall|j: nat| j <= n ==> #[trigger] v1.walk(start, j) == v0.walk(start, j),
                v1.half_edges.dom().contains(start),
                forall|j: nat| j < n ==> v1.half_edges.dom().contains(#[trigger] v0.walk(start, j)),
                forall|j: nat|
                    j < n ==> (#[trigger] v1.half_edges[v0.walk(start, j)]).neighbors
                        == v0.half_edges[v0.walk(start, j)].neighbors,
                self@ == (SolidView {
                    half_edges: with_loop_along(v1.half_edges, v0, start, i, new_loop),
                    ..v1
                }),
            decreases n - i,
        {
            proof {
                assert(i < n);
                assert(v0.linked(v0.walk(start, i)));
            }
            let he = self.solid.half_edge_mut(he_key);
            he.edge_loop = Some(new_loop);
            he_key = he.get_next();

            past_start = true;
            proof {
                i = i + 1;
                assert(self@.half_edges =~= with_loop_along(v1.half_edges, v0, start, i, new_loop)) by {
                    assert forall|k: HalfEdgeKey|
                        v0.walk_visits(start, k, i) == (v0.walk_visits(start, k, (i - 1) as nat)
                            || k == v0.walk(start, (i - 1) as nat)) by {
                        if v0.walk_visits(start, k, i) {
                            let j = choose|j: nat| j < i && #[trigger] v0.walk(start, j) == k;
                            if j < i - 1 {
                                assert(v0.walk_visits(start, k, (i - 1) as nat));
                            }
                        }
                        if v0.walk_visits(start, k, (i - 1) as nat) {
                            let j = choose|j: nat| j < i - 1 && #[trigger] v0.walk(start, j) == k;
                            assert(v0.walk(start, j) == k);
                        }
                    }
                }
            }
        }
        let ghost v2 = self@;

        // now insert the new half-edges into cycles
        self.insert_he_before(he_end_start, start);
        self.insert_he_before(he_start_end, end);

        // fix the loops so they are separated

        // get neighborhoods of the new halfedges
        let end_start_neigh = self.solid.half_edge(he_end_start).neighbors();
        let start_end_neigh = self.solid.half_edge(he_start_end).neighbors();

        // fix the previous halfedges
        self.solid.half_edge_mut(end_start_neigh.prev).set_next(he_start_end);
        self.solid.half_edge_mut(start_end_neigh.prev).set_next(he_end_start);

        // because we modifed the previous half-edges' destination,
        // we need to update our prev pointer too
        self.solid.half_edge_mut(he_start_end).set_prev(end_start_neigh.prev);
        self.solid.half_edge_mut(he_end_start).set_prev(start_end_neigh.prev);

        // reset the loop assignment
        self.solid.half_edge_mut(he_end_start).edge_loop = Some(new_loop);  // insert_he broke this
        let end_start_loop = self.solid.half_edge(he_start_end).get_edge_loop();
        self.set_loop_origin(end_start_loop, he_start_end);

        let res = SplitFaceRes { face: new_face, edge_loop: new_loop, edge: new_edge };
        proof {
            assert(self@.vertices =~= with_vertex_he(
                with_vertex_he(v0.vertices, v0.half_edges[start].vertex, Some(he_start_end)),
                v0.half_edges[end].vertex,
                Some(he_end_start),
            ));
            assert(self@.half_edges =~= v0.split_face_half_edges(
                start,
                end,
                n,
                he_start_end,
                he_end_start,
                new_edge,
                new_loop,
            ));
            assert(self@.edges =~= v0.edges.insert(
                new_edge,
                Edge { pos: he_start_end, neg: he_end_start },
            ));
            assert(self@.edge_loops =~= v0.edge_loops.insert(
                end_start_loop,
                EdgeLoop { half_edge: he_start_end, ..v0.edge_loops[end_start_loop] },
            ).insert(new_loop, EdgeLoop { half_edge: he_end_start, face: Some(new_face) }));
            assert(self@.faces.dom() =~= v0.faces.dom().insert(new_face));
        }
        res
    }
}

impl SolidView {
    /// The half-edges after `split_ring_from_loop` removes edge `e` and makes
    /// loop `nl` of the half-edges that followed its positive half-edge
    /// `p` up to before its negative half-edge `n`, `m` of them.
    ///
    /// When there are none, `n` is kept, alone, as the half-edge of the new
    /// loop; otherwise the new loop closes on itself and `n` goes. Likewise
    /// on the other side: when nothing follows `n` before `p`, `p` is kept
    /// alone in the old loop; otherwise the old loop closes on itself and `p`
    /// goes.
    pub open spec fn split_ring_half_edges(
        self,
        e: EdgeKey,
        m: nat,
        nl: EdgeLoopKey,
    ) -> Map<HalfEdgeKey, HalfEdge> {
        let p = self.edges[e].pos;
        let n = self.edges[e].neg;
        let pp = self.prev(p);
        let pn = self.next(p);
        let np = self.prev(n);
        let nn = self.next(n);
        let b_empty = pn == n;
        let a_empty = nn == p;
        let hs = self.half_edges;
        Map::new(
            |k: HalfEdgeKey| hs.dom().contains(k) && (k != n || b_empty) && (k != p || a_empty),
            |k: HalfEdgeKey|
                if k == n {
                    HalfEdge {
                        neighbors: Some(HalfEdgeNeighbors { next: n, prev: n }),
                        edge: None,
                        edge_loop: Some(nl),
                        ..hs[n]
                    }
                } else if k == p {
                    HalfEdge {
                        neighbors: Some(HalfEdgeNeighbors { next: p, prev: p }),
                        edge: None,
                        ..hs[p]
                    }
                } else {
                    let moved = HalfEdge {
                        edge_loop: if self.walk_visits(pn, k, m) {
                            Some(nl)
                        } else {
                            hs[k].edge_loop
                        },
                        ..hs[k]
                    };
                    if (!b_empty && (k == np || k == pn)) || (!a_empty && (k == pp || k == nn)) {
                        HalfEdge {
                            neighbors: Some(
                                HalfEdgeNeighbors {
                                    next: if !b_empty && k == np {
                                        pn
                                    } else if !a_empty && k == pp {
                                        nn
                                    } else {
                                        hs[k].next_key()
                                    },
                                    prev: if !b_empty && k == pn {
                                        np
                                    } else if !a_empty && k == nn {
                                        pp
                                    } else {
                                        hs[k].prev_key()
                                    },
                                },
                            ),
                            ..moved
                        }
                    } else {
                        moved
                    }
                },
        )
    }

    /// Whether `after` is `self` after `split_ring_from_loop(e)` returned the
    /// new loop `nl`.
    ///
    /// Edge `e` is gone; the new loop holds the half-edges that followed its
    /// positive half-edge, and starts at the first of them (or at the kept
    /// negative half-edge); the old loop now starts at the half-edge that
    /// followed the negative half-edge (or at the kept positive one); a
    /// half-edge that goes leaves its vertex without a half-edge.
    pub open spec fn splits_ring(self, after: SolidView, e: EdgeKey, nl: EdgeLoopKey) -> bool {
        let p = self.edges[e].pos;
        let n = self.edges[e].neg;
        let pn = self.next(p);
        let nn = self.next(n);
        let b_empty = pn == n;
        let a_empty = nn == p;
        let l = self.half_edges[n].edge_loop->Some_0;
        let m = choose|m: nat| self.walk_reaches(pn, n, m);
        let v1 = if b_empty {
            self.vertices
        } else {
            with_vertex_he(self.vertices, self.half_edges[n].vertex, None)
        };
        &&& !self.edge_loops.dom().contains(nl)
        &&& after.vertices == if a_empty {
            v1
        } else {
            with_vertex_he(v1, self.half_edges[p].vertex, None)
        }
        &&& after.half_edges == self.split_ring_half_edges(e, m, nl)
        &&& after.edges == self.edges.remove(e)
        &&& after.edge_loops == self.edge_loops.insert(
            l,
            EdgeLoop { half_edge: nn, ..self.edge_loops[l] },
        ).insert(nl, EdgeLoop { half_edge: pn, face: None })
        &&& after.faces == self.faces
    }
}

/// Facts about the walk of `split_face(start, end)` in a valid solid: the
/// half-edges it meets are present and in the loop of `end`; it enters at
/// `start` from `p` and leaves from `q` into `end`.
proof fn lemma_split_face_walk(before: SolidView, start: HalfEdgeKey, end: HalfEdgeKey, n: nat)
    requires
        before.is_valid(),
        before.half_edges.dom().contains(start),
        before.walk_reaches(start, end, n),
        before.half_edges[end].edge_loop is Some,
    ensures
        ({
            let l = before.half_edges[end].edge_loop->Some_0;
            let p = before.prev(start);
            let q = before.prev(end);
            &&& before.half_edges.dom().contains(end)
            &&& before.linked(start) && before.linked(end) && before.linked(p) && before.linked(q)
            &&& before.next(p) == start && before.next(q) == end
            &&& before.prev(before.next(start)) == start
            &&& before.half_edges[start].edge_loop == Some(l)
            &&& before.half_edges[p].edge_loop == Some(l)
            &&& before.edge_loops.dom().contains(l)
            &&& forall|k: HalfEdgeKey| #[trigger]
                before.walk_visits(start, k, n) ==> {
                    &&& before.half_edges.dom().contains(k)
                    &&& before.half_edges[k].edge_loop == Some(l)
                }
            &&& start == end <==> n == 0
            &&& start != end ==> before.walk_visits(start, q, n) && before.walk_visits(
                start,
                start,
                n,
            )
            &&& !before.walk_visits(start, end, n)
            &&& !before.walk_visits(start, p, n)
            &&& forall|k: HalfEdgeKey|
                before.half_edges.dom().contains(k) && #[trigger] before.walk_visits(
                    start,
                    before.next(k),
                    n,
                ) && k != p ==> before.walk_visits(start, k, n)
            &&& forall|k: HalfEdgeKey|
                #[trigger] before.walk_visits(start, k, n) && k != q ==> before.walk_visits(
                    start,
                    before.next(k),
                    n,
                )
        }),
{
    let l = before.half_edges[end].edge_loop->Some_0;
    let p = before.prev(start);
    let q = before.prev(end);
    lemma_walk_in_loop(before, start, n);
    assert forall|k: HalfEdgeKey| #[trigger] before.walk_visits(start, k, n) implies {
        &&& before.half_edges.dom().contains(k)
        &&& before.half_edges[k].edge_loop == Some(l)
    } by {
        let j = choose|j: nat| j < n && #[trigger] before.walk(start, j) == k;
        lemma_walk_in_loop(before, start, j);
    }
    if start != end {
        assert(n > 0);
        lemma_walk_prev(before, start, n);
        assert(q == before.walk(start, (n - 1) as nat));
        assert(before.walk_visits(start, q, n));
        assert(before.walk(start, 0) == start);
        assert(before.walk_visits(start, start, n));
    } else {
        if n > 0 {
            assert(before.walk(start, 0) == start);
        }
        assert(n == 0);
    }
    assert(before.he_links_ok(start));
    assert(before.he_links_ok(end));
    assert(before.he_links_ok(p));
    assert(before.he_links_ok(q));
    assert(before.he_refs_ok(p));
    assert(before.he_refs_ok(end));
    if before.walk_visits(start, p, n) {
        let j = choose|j: nat| j < n && #[trigger] before.walk(start, j) == p;
        assert(before.walk(start, j + 1) == start);
        lemma_walk_no_return(before, start, end, n, j + 1);
    }
    assert forall|k: HalfEdgeKey|
        before.half_edges.dom().contains(k) && #[trigger] before.walk_visits(
            start,
            before.next(k),
            n,
        ) && k != p implies before.walk_visits(start, k, n) by {
        let j = choose|j: nat| j < n && #[trigger] before.walk(start, j) == before.next(k);
        assert(before.he_links_ok(k));
        assert(before.prev(before.next(k)) == k);
        if j > 0 {
            lemma_walk_prev(before, start, j);
            assert(before.walk(start, (j - 1) as nat) == k);
        }
    }
    assert forall|k: HalfEdgeKey|
        #[trigger] before.walk_visits(start, k, n) && k != q implies before.walk_visits(
        start,
        before.next(k),
        n,
    ) by {
        let j = choose|j: nat| j < n && #[trigger] before.walk(start, j) == k;
        if j + 1 < n {
            assert(before.walk(start, j + 1) == before.next(k));
        } else if start != end {
            assert(k == q);
        }
    }
}

/// After `split_face` on a valid solid, every half-edge is linked into a
/// cycle.
proof fn lemma_split_face_links(
    before: SolidView,
    after: SolidView,
    start: HalfEdgeKey,
    end: HalfEdgeKey,
    res: SplitFaceRes,
)
    requires
        before.is_valid(),
        before.half_edges.dom().contains(start),
        exists|n: nat| before.walk_reaches(start, end, n),
        before.half_edges[end].edge_loop is Some,
        before.splits_face(after, start, end, res),
    ensures
        forall|k: HalfEdgeKey| after.half_edges.dom().contains(k) ==> #[trigger] after.he_links_ok(k),
{
    let n = choose|n: nat| before.walk_reaches(start, end, n);
    let hse = after.edges[res.edge].pos;
    let hes = after.edges[res.edge].neg;
    lemma_split_face_walk(before, start, end, n);
    assert forall|k: HalfEdgeKey| after.half_edges.dom().contains(k) implies #[trigger] after.he_links_ok(k) by {
        if k != hse && k != hes {
            assert(before.he_links_ok(k));
        }
    }
}

/// After `split_face` on a valid solid, every half-edge agrees with what it
/// names.
proof fn lemma_split_face_he_refs(
    before: SolidView,
    after: SolidView,
    start: HalfEdgeKey,
    end: HalfEdgeKey,
    res: SplitFaceRes,
)
    requires
        before.is_valid(),
        before.half_edges.dom().contains(start),
        exists|n: nat| before.walk_reaches(start, end, n),
        before.half_edges[end].edge_loop is Some,
        before.splits_face(after, start, end, res),
    ensures
        forall|k: HalfEdgeKey| after.half_edges.dom().contains(k) ==> #[trigger] after.he_refs_ok(k),
{
    let n = choose|n: nat| before.walk_reaches(start, end, n);
    let hse = after.edges[res.edge].pos;
    let hes = after.edges[res.edge].neg;
    lemma_split_face_walk(before, start, end, n);
    assert forall|k: HalfEdgeKey| after.half_edges.dom().contains(k) implies #[trigger] after.he_refs_ok(k) by {
        if k != hse && k != hes {
            assert(before.he_links_ok(k));
            assert(before.he_refs_ok(k));
            if before.half_edges[k].edge is Some {
                assert(before.edge_ok(before.half_edges[k].edge->Some_0));
            }
        }
    }
}

/// Splitting a face of a valid solid leaves it valid.
pub proof fn lemma_split_face_keeps_valid(
    before: SolidView,
    after: SolidView,
    start: HalfEdgeKey,
    end: HalfEdgeKey,
    res: SplitFaceRes,
)
    requires
        before.is_valid(),
        before.half_edges.dom().contains(start),
        exists|n: nat| before.walk_reaches(start, end, n),
        before.half_edges[end].edge_loop is Some,
        before.splits_face(after, start, end, res),
    ensures
        after.is_valid(),
{
    lemma_split_face_keeps_loops_connected(before, after, start, end, res);
    let n = choose|n: nat| before.walk_reaches(start, end, n);
    let hse = after.edges[res.edge].pos;
    let hes = after.edges[res.edge].neg;
    let l = before.half_edges[end].edge_loop->Some_0;
    lemma_split_face_walk(before, start, end, n);
    lemma_split_face_links(before, after, start, end, res);
    lemma_split_face_he_refs(before, after, start, end, res);
    assert(before.he_refs_ok(start));
    assert(before.he_refs_ok(end));
    assert(after.half_edges.dom() =~= before.half_edges.dom().insert(hse).insert(hes));
    assert(after.vertices.dom() =~= before.vertices.dom());
    assert(after.edge_loops.dom() =~= before.edge_loops.dom().insert(l).insert(res.edge_loop));
    assert(after.is_finite());
    let fl = face_loops(after.faces[res.face]);
    assert(fl.len() == 1);
    assert(fl[0] == res.edge_loop);
    assert(fl.contains(res.edge_loop));
    assert forall|v: VertexKey| after.vertices.dom().contains(v) implies #[trigger] after.vertex_ok(v) by {
        assert(before.vertex_ok(v));
    }
    assert forall|e: EdgeKey| after.edges.dom().contains(e) implies #[trigger] after.edge_ok(e) by {
        if e != res.edge {
            assert(before.edge_ok(e));
        }
    }
    assert forall|x: EdgeLoopKey| after.edge_loops.dom().contains(x) implies #[trigger] after.loop_ok(x) by {
        if x != res.edge_loop {
            assert(before.loop_ok(x));
            let o = before.edge_loops[x].half_edge;
            if x != l {
                assert(!before.walk_visits(start, o, n));
            }
            if before.edge_loops[x].face is Some {
                let g = before.edge_loops[x].face->Some_0;
                assert(after.faces[g] == before.faces[g]);
            }
        }
    }
    assert forall|g: FaceKey| after.faces.dom().contains(g) implies #[trigger] after.face_ok(g) by {
        if g != res.face {
            assert(before.face_ok(g));
            assert(after.faces[g] == before.faces[g]);
            assert forall|i: int| 0 <= i < face_loops(after.faces[g]).len() implies {
                &&& after.edge_loops.dom().contains(#[trigger] face_loops(after.faces[g])[i])
                &&& after.edge_loops[face_loops(after.faces[g])[i]].face == Some(g)
            } by {
                assert(before.edge_loops.dom().contains(face_loops(before.faces[g])[i]));
            }
        }
    }
}

/// Facts about the half-edges around an edge whose positive side leads, in
/// `m` steps, to its negative half-edge, in a valid solid.
proof fn lemma_ring_sides(s: SolidView, e: EdgeKey, m: nat)
    requires
        s.is_valid(),
        s.edges.dom().contains(e),
        s.walk_reaches(s.next(s.edges[e].pos), s.edges[e].neg, m),
    ensures
        ({
            let p = s.edges[e].pos;
            let n = s.edges[e].neg;
            let pp = s.prev(p);
            let pn = s.next(p);
            let np = s.prev(n);
            let nn = s.next(n);
            &&& p != n
            &&& s.half_edges.dom().contains(p)
            &&& s.half_edges.dom().contains(n)
            &&& !s.walk_visits(pn, p, m)
            &&& !s.walk_visits(pn, n, m)
            &&& !s.walk_visits(pn, pp, m)
            &&& !s.walk_visits(pn, nn, m)
            &&& (pn == n) == (m == 0)
            &&& (pn == n) == (np == p)
            &&& (nn == p) == (pp == n)
            &&& pn != n ==> s.walk_visits(pn, pn, m) && s.walk_visits(pn, np, m)
            &&& pn != n ==> np == s.walk(pn, (m - 1) as nat)
            &&& pp != p
            &&& nn != n
            &&& pn != p
            &&& np != n
            &&& forall|j: nat| j < m ==> s.half_edges.dom().contains(#[trigger] s.walk(pn, j))
            &&& s.linked(p) && s.linked(n) && s.linked(pp) && s.linked(pn)
            &&& s.linked(np) && s.linked(nn)
            &&& s.next(pp) == p && s.prev(pn) == p && s.next(np) == n && s.prev(nn) == n
            &&& s.vertices.dom().contains(s.half_edges[p].vertex)
            &&& s.vertices.dom().contains(s.half_edges[n].vertex)
            &&& s.half_edges[p].edge == Some(e)
            &&& s.half_edges[n].edge == Some(e)
            &&& s.half_edges[n].edge_loop is Some ==> s.edge_loops.dom().contains(
                s.half_edges[n].edge_loop->Some_0,
            )
        }),
{
    let p = s.edges[e].pos;
    let n = s.edges[e].neg;
    let pp = s.prev(p);
    let pn = s.next(p);
    let np = s.prev(n);
    let nn = s.next(n);
    assert(s.edge_ok(e));
    assert(s.half_edges.dom().contains(p));
    assert(s.half_edges.dom().contains(n));
    assert(p != n);
    assert(s.he_links_ok(p));
    assert(s.he_links_ok(n));
    assert(s.he_links_ok(pp));
    assert(s.he_links_ok(pn));
    assert(s.he_links_ok(np));
    assert(s.he_links_ok(nn));
    assert(s.he_refs_ok(p));
    assert(s.he_refs_ok(n));
    assert forall|j: nat| j < m implies s.half_edges.dom().contains(#[trigger] s.walk(pn, j)) by {
        assert(s.linked(s.walk(pn, j)));
    }
    if m > 0 {
        lemma_walk_prev(s, pn, m);
        assert(np == s.walk(pn, (m - 1) as nat));
        assert(s.walk_visits(pn, np, m));
        assert(s.walk(pn, 0) == pn);
        assert(s.walk_visits(pn, pn, m));
    } else {
        assert(pn == n);
        assert(np == p);
    }
    if pn == n {
        assert(s.walk(pn, 0) == n);
        assert(m == 0);
    }
    // p is not met: it would be followed by a return to the start
    if s.walk_visits(pn, p, m) {
        let j = choose|j: nat| j < m && #[trigger] s.walk(pn, j) == p;
        assert(s.walk(pn, j + 1) == pn);
        lemma_walk_no_return(s, pn, n, m, j + 1);
    }
    // pp is not met: it would be followed by p
    if s.walk_visits(pn, pp, m) {
        let j = choose|j: nat| j < m && #[trigger] s.walk(pn, j) == pp;
        assert(s.walk(pn, j + 1) == p);
        if j + 1 < m {
            assert(s.walk_visits(pn, p, m));
        }
    }
    // nn is not met: it would come just after n
    if s.walk_visits(pn, nn, m) {
        let j = choose|j: nat| j < m && #[trigger] s.walk(pn, j) == nn;
        if j == 0 {
            assert(s.prev(s.next(n)) == n);
            assert(s.prev(s.next(p)) == p);
        } else {
            assert(s.he_links_ok(nn));
            lemma_walk_prev(s, pn, j);
            assert(s.prev(nn) == n);
        }
    }
    assert(s.next(s.prev(p)) == p);
    assert(s.prev(s.next(n)) == n);
    assert(s.next(s.prev(n)) == n);
    assert(s.prev(s.next(p)) == p);
}

/// Facts about the walk from the positive side of edge `e` to its negative
/// half-edge, in a valid solid: the half-edges it meets are in the loop of
/// `e`, and any half-edge leading onto it is on it, or is the positive
/// half-edge.
proof fn lemma_split_ring_walk(before: SolidView, e: EdgeKey, m: nat)
    requires
        before.is_valid(),
        before.edges.dom().contains(e),
        before.half_edges[before.edges[e].neg].edge_loop == before.half_edges[before.edges[e].pos].edge_loop,
        before.walk_reaches(before.next(before.edges[e].pos), before.edges[e].neg, m),
    ensures
        ({
            let p = before.edges[e].pos;
            let pn = before.next(p);
            let np = before.prev(before.edges[e].neg);
            &&& before.half_edges[pn].edge_loop == before.half_edges[p].edge_loop
            &&& forall|k: HalfEdgeKey| #[trigger]
                before.walk_visits(pn, k, m) ==> {
                    &&& before.half_edges.dom().contains(k)
                    &&& before.half_edges[k].edge_loop == before.half_edges[p].edge_loop
                }
            &&& forall|k: HalfEdgeKey|
                before.half_edges.dom().contains(k) && #[trigger] before.walk_visits(
                    pn,
                    before.next(k),
                    m,
                ) && k != p ==> before.walk_visits(pn, k, m)
            &&& forall|k: HalfEdgeKey|
                #[trigger] before.walk_visits(pn, k, m) && k != np ==> before.walk_visits(
                    pn,
                    before.next(k),
                    m,
                )
        }),
{
    let p = before.edges[e].pos;
    let n = before.edges[e].neg;
    let pn = before.next(p);
    let np = before.prev(n);
    lemma_ring_sides(before, e, m);
    assert(before.he_refs_ok(p));
    lemma_walk_in_loop(before, pn, m);
    assert forall|k: HalfEdgeKey| #[trigger] before.walk_visits(pn, k, m) implies {
        &&& before.half_edges.dom().contains(k)
        &&& before.half_edges[k].edge_loop == before.half_edges[p].edge_loop
    } by {
        let j = choose|j: nat| j < m && #[trigger] before.walk(pn, j) == k;
        lemma_walk_in_loop(before, pn, j);
    }
    assert forall|k: HalfEdgeKey|
        before.half_edges.dom().contains(k) && #[trigger] before.walk_visits(
            pn,
            before.next(k),
            m,
        ) && k != p implies before.walk_visits(pn, k, m) by {
        let j = choose|j: nat| j < m && #[trigger] before.walk(pn, j) == before.next(k);
        assert(before.he_links_ok(k));
        assert(before.prev(before.next(k)) == k);
        if j > 0 {
            lemma_walk_prev(before, pn, j);
            assert(before.walk(pn, (j - 1) as nat) == k);
        }
    }
    assert forall|k: HalfEdgeKey|
        #[trigger] before.walk_visits(pn, k, m) && k != np implies before.walk_visits(
        pn,
        before.next(k),
        m,
    ) by {
        let j = choose|j: nat| j < m && #[trigger] before.walk(pn, j) == k;
        if j + 1 < m {
            assert(before.walk(pn, j + 1) == before.next(k));
        } else {
            assert(k == np);
        }
    }
}

/// After `split_ring_from_loop` on a valid solid, every half-edge is linked
/// into a cycle.
proof fn lemma_split_ring_links(
    before: SolidView,
    after: SolidView,
    e: EdgeKey,
    nl: EdgeLoopKey,
)
    requires
        before.is_valid(),
        before.edges.dom().contains(e),
        before.half_edges[before.edges[e].neg].edge_loop == before.half_edges[before.edges[e].pos].edge_loop,
        before.half_edges[before.edges[e].neg].edge_loop is Some,
        exists|m: nat| before.walk_reaches(before.next(before.edges[e].pos), before.edges[e].neg, m),
        before.splits_ring(after, e, nl),
    ensures
        forall|k: HalfEdgeKey| after.half_edges.dom().contains(k) ==> #[trigger] after.he_links_ok(k),
{
    let p = before.edges[e].pos;
    let n = before.edges[e].neg;
    let pp = before.prev(p);
    let pn = before.next(p);
    let np = before.prev(n);
    let nn = before.next(n);
    let l = before.half_edges[n].edge_loop->Some_0;
    let m = choose|m: nat| before.walk_reaches(pn, n, m);
    lemma_ring_sides(before, e, m);
    lemma_split_ring_walk(before, e, m);
    assert forall|k: HalfEdgeKey| after.half_edges.dom().contains(k) implies #[trigger] after.he_links_ok(k) by {
        assert(before.he_links_ok(k));
    }
}

/// After `split_ring_from_loop` on a valid solid, every half-edge agrees
/// with what it names.
proof fn lemma_split_ring_he_refs(
    before: SolidView,
    after: SolidView,
    e: EdgeKey,
    nl: EdgeLoopKey,
)
    requires
        before.is_valid(),
        before.edges.dom().contains(e),
        before.half_edges[before.edges[e].neg].edge_loop == before.half_edges[before.edges[e].pos].edge_loop,
        before.half_edges[before.edges[e].neg].edge_loop is Some,
        exists|m: nat| before.walk_reaches(before.next(before.edges[e].pos), before.edges[e].neg, m),
        before.splits_ring(after, e, nl),
    ensures
        forall|k: HalfEdgeKey| after.half_edges.dom().contains(k) ==> #[trigger] after.he_refs_ok(k),
{
    let p = before.edges[e].pos;
    let n = before.edges[e].neg;
    let pp = before.prev(p);
    let pn = before.next(p);
    let np = before.prev(n);
    let nn = before.next(n);
    let l = before.half_edges[n].edge_loop->Some_0;
    let m = choose|m: nat| before.walk_reaches(pn, n, m);
    lemma_ring_sides(before, e, m);
    lemma_split_ring_walk(before, e, m);
    assert(before.he_refs_ok(p));
    assert(before.he_refs_ok(n));
    assert(before.he_refs_ok(pp));
    assert(before.he_refs_ok(np));
    assert(before.half_edges[nn].edge_loop == Some(l));
    assert(before.half_edges[pp].edge_loop == Some(l));
    assert(before.edge_loops.dom().contains(l));
    assert forall|k: HalfEdgeKey| after.half_edges.dom().contains(k) implies #[trigger] after.he_refs_ok(k) by {
        assert(before.he_links_ok(k));
        assert(before.he_refs_ok(k));
        if before.half_edges[k].edge is Some {
            let x = before.half_edges[k].edge->Some_0;
            assert(before.edge_ok(x));
            if x == e {
                assert(k == p || k == n);
            }
        }
        assert(after.vertices.dom().contains(after.half_edges[k].vertex));
        assert(after.half_edges[k].edge is Some ==> after.has_twin(k));
        assert(after.half_edges[k].edge_loop is Some ==> after.edge_loops.dom().contains(
            after.half_edges[k].edge_loop->Some_0,
        ));
        let nk = before.next(k);
        if !before.walk_visits(pn, k, m) && k != p && k != n {
            if before.walk_visits(pn, nk, m) {
                assert(false);
            }
        }
        assert(after.half_edges[after.next(k)].edge_loop == after.half_edges[k].edge_loop);
    }
}

/// Splitting a ring from a loop of a valid solid leaves it valid.
pub proof fn lemma_split_ring_keeps_valid(
    before: SolidView,
    after: SolidView,
    e: EdgeKey,
    nl: EdgeLoopKey,
)
    requires
        before.is_valid(),
        before.edges.dom().contains(e),
        before.half_edges[before.edges[e].neg].edge_loop == before.half_edges[before.edges[e].pos].edge_loop,
        before.half_edges[before.edges[e].neg].edge_loop is Some,
        exists|m: nat| before.walk_reaches(before.next(before.edges[e].pos), before.edges[e].neg, m),
        before.splits_ring(after, e, nl),
    ensures
        after.is_valid(),
{
    lemma_split_ring_keeps_loops_connected(before, after, e, nl);
    let p = before.edges[e].pos;
    let n = before.edges[e].neg;
    let pp = before.prev(p);
    let pn = before.next(p);
    let np = before.prev(n);
    let nn = before.next(n);
    let l = before.half_edges[n].edge_loop->Some_0;
    let m = choose|m: nat| before.walk_reaches(pn, n, m);
    lemma_ring_sides(before, e, m);
    lemma_split_ring_walk(before, e, m);
    lemma_split_ring_links(before, after, e, nl);
    lemma_split_ring_he_refs(before, after, e, nl);
    assert(before.edge_ok(e));
    assert(before.he_refs_ok(n));
    assert(before.he_refs_ok(p));
    assert(after.half_edges.dom().subset_of(before.half_edges.dom()));
    vstd::set_lib::lemma_len_subset(after.half_edges.dom(), before.half_edges.dom());
    assert(after.vertices.dom() =~= before.vertices.dom());
    assert(after.is_finite());
    assert forall|v: VertexKey| after.vertices.dom().contains(v) implies #[trigger] after.vertex_ok(v) by {
        assert(before.vertex_ok(v));
    }
    assert forall|x: EdgeKey| after.edges.dom().contains(x) implies #[trigger] after.edge_ok(x) by {
        assert(before.edge_ok(x));
    }
    assert forall|x: EdgeLoopKey| after.edge_loops.dom().contains(x) implies #[trigger] after.loop_ok(x) by {
        if x != nl {
            assert(before.loop_ok(x));
            let o = before.edge_loops[x].half_edge;
            if x != l {
                assert(!before.walk_visits(pn, o, m));
                assert(o != p && o != n);
            } else {
                assert(before.half_edges[nn].edge_loop == Some(l));
                assert(after.half_edges.dom().contains(nn));
                assert(after.half_edges[nn].edge_loop == Some(l));
            }
            if before.edge_loops[x].face is Some {
                assert(before.faces.dom().contains(before.edge_loops[x].face->Some_0));
            }
        } else {
            assert(after.half_edges.dom().contains(pn));
            assert(after.half_edges[pn].edge_loop == Some(nl));
        }
    }
    assert forall|f: FaceKey| after.faces.dom().contains(f) implies #[trigger] after.face_ok(f) by {
        assert(before.face_ok(f));
        assert forall|i: int| 0 <= i < face_loops(after.faces[f]).len() implies {
            &&& after.edge_loops.dom().contains(#[trigger] face_loops(after.faces[f])[i])
            &&& after.edge_loops[face_loops(after.faces[f])[i]].face == Some(f)
        } by {
            assert(before.edge_loops.dom().contains(face_loops(before.faces[f])[i]));
        }
    }
}

/// Adding a skeletal primitive to a valid, consistent solid leaves it
/// consistent.
pub proof fn lemma_add_skeletal_primitive_keeps_consistent(
    before: SolidView,
    after: SolidView,
    p: SkeletalPrimtive,
    origin: Point,
)
    requires
        before.is_valid(),
        before.is_consistent(),
        before.adds_skeletal_primitive(after, p, origin),
    ensures
        after.is_consistent(),
{
    assert forall|h: HalfEdgeKey| after.half_edges.dom().contains(h) implies #[trigger] after.meets_twin(h) by {
        if h != p.half_edge {
            assert(before.meets_twin(h));
            assert(before.he_links_ok(h));
            if before.half_edges[h].edge is Some {
                lemma_twin_twin(before, h);
            }
        }
    }
}

/// Removing a skeletal primitive from a valid, consistent solid leaves it
/// consistent.
pub proof fn lemma_rm_skeletal_primitive_keeps_consistent(
    before: SolidView,
    after: SolidView,
    f: FaceKey,
)
    requires
        before.is_valid(),
        before.is_consistent(),
        before.faces.dom().contains(f),
        before.is_skeletal_primitive(f),
        before.removes_skeletal_primitive(after, f),
    ensures
        after.is_consistent(),
{
    let l = before.faces[f].outer;
    let h0 = before.edge_loops[l].half_edge;
    assert(before.face_ok(f));
    assert(face_loops(before.faces[f])[0] == l);
    assert(before.loop_ok(l));
    assert(before.he_links_ok(h0));
    assert forall|h: HalfEdgeKey| after.half_edges.dom().contains(h) implies #[trigger] after.meets_twin(h) by {
        assert(before.meets_twin(h));
        assert(before.he_links_ok(h));
        if before.half_edges[h].edge is Some {
            lemma_twin_twin(before, h);
        }
    }
}

/// Adding a skeletal primitive to a valid solid leaves its loops connected.
proof fn lemma_add_skeletal_primitive_keeps_loops_connected(
    before: SolidView,
    after: SolidView,
    p: SkeletalPrimtive,
    origin: Point,
)
    requires
        before.is_valid(),
        before.adds_skeletal_primitive(after, p, origin),
    ensures
        after.loops_connected(),
{
    assert forall|k: HalfEdgeKey| after.half_edges.dom().contains(k) implies #[trigger] after.on_its_loop(k) by {
        if k == p.half_edge {
            assert(after.edge_loops[after.half_edges[k].edge_loop->Some_0].half_edge == k);
            assert(after.walk(k, 0) == k);
        } else {
            assert(before.on_its_loop(k));
            if before.half_edges[k].edge_loop is Some {
                let l = before.half_edges[k].edge_loop->Some_0;
                assert(before.he_refs_ok(k));
                assert(before.loop_ok(l));
                let o = before.edge_loops[l].half_edge;
                let i = choose|i: nat| #[trigger] before.walk(o, i) == k;
                assert forall|j: nat| j < i implies (#[trigger] after.half_edges[before.walk(o, j)]).neighbors
                    == before.half_edges[before.walk(o, j)].neighbors by {
                    lemma_walk_in_loop(before, o, j);
                }
                lemma_walk_same_links(before, after, o, i);
                assert(after.walk(o, i) == k);
                assert(after.half_edges[k].edge_loop == Some(l));
                assert(after.edge_loops[l].half_edge == o);
            }
        }
    }
}

/// Removing a skeletal primitive from a valid solid leaves its loops
/// connected, when no other half-edge names its loop.
proof fn lemma_rm_skeletal_primitive_keeps_loops_connected(
    before: SolidView,
    after: SolidView,
    f: FaceKey,
)
    requires
        before.is_valid(),
        before.faces.dom().contains(f),
        before.is_skeletal_primitive(f),
        before.removes_skeletal_primitive(after, f),
        forall|h: HalfEdgeKey|
            #![trigger before.half_edges[h]]
            before.half_edges.dom().contains(h) && h != before.edge_loops[before.faces[f].outer].half_edge
                ==> before.half_edges[h].edge_loop != Some(before.faces[f].outer),
    ensures
        after.loops_connected(),
{
    let lf = before.faces[f].outer;
    let h0 = before.edge_loops[lf].half_edge;
    assert(before.face_ok(f));
    assert(face_loops(before.faces[f])[0] == lf);
    assert(before.loop_ok(lf));
    assert forall|k: HalfEdgeKey| after.half_edges.dom().contains(k) implies #[trigger] after.on_its_loop(k) by {
        assert(before.on_its_loop(k));
        if before.half_edges[k].edge_loop is Some {
            let l = before.half_edges[k].edge_loop->Some_0;
            assert(before.half_edges[k].edge_loop != Some(lf));
            assert(before.he_refs_ok(k));
            assert(before.loop_ok(l));
            let o = before.edge_loops[l].half_edge;
            let i = choose|i: nat| #[trigger] before.walk(o, i) == k;
            assert forall|j: nat| j < i implies (#[trigger] after.half_edges[before.walk(o, j)]).neighbors
                == before.half_edges[before.walk(o, j)].neighbors by {
                lemma_walk_in_loop(before, o, j);
            }
            lemma_walk_same_links(before, after, o, i);
            assert(after.walk(o, i) == k);
        }
    }
}

/// Adding a skeletal primitive adds a shell: the Euler count of the solid
/// grows by two (one vertex, one face and one loop more).
pub proof fn lemma_add_skeletal_primitive_counts(
    before: SolidView,
    after: SolidView,
    p: SkeletalPrimtive,
    origin: Point,
)
    requires
        before.is_finite(),
        before.adds_skeletal_primitive(after, p, origin),
    ensures
        after.vertices.len() == before.vertices.len() + 1,
        after.edges.len() == before.edges.len(),
        after.faces.len() == before.faces.len() + 1,
        after.edge_loops.len() == before.edge_loops.len() + 1,
        after.euler_count() == before.euler_count() + 2,
{
}

/// Removing a skeletal primitive takes a shell away: the Euler count of a
/// valid solid drops by two.
pub proof fn lemma_rm_skeletal_primitive_counts(before: SolidView, after: SolidView, f: FaceKey)
    requires
        before.is_valid(),
        before.faces.dom().contains(f),
        before.removes_skeletal_primitive(after, f),
    ensures
        after.vertices.len() == before.vertices.len() - 1,
        after.edges.len() == before.edges.len(),
        after.faces.len() == before.faces.len() - 1,
        after.edge_loops.len() == before.edge_loops.len() - 1,
        after.euler_count() == before.euler_count() - 2,
{
    let l = before.faces[f].outer;
    let h = before.edge_loops[l].half_edge;
    assert(before.face_ok(f));
    assert(face_loops(before.faces[f])[0] == l);
    assert(before.loop_ok(l));
    assert(before.he_refs_ok(h));
}

/// Splitting a face of a valid, consistent solid leaves it consistent.
pub proof fn lemma_split_face_keeps_consistent(
    before: SolidView,
    after: SolidView,
    start: HalfEdgeKey,
    end: HalfEdgeKey,
    res: SplitFaceRes,
)
    requires
        before.is_valid(),
        before.is_consistent(),
        before.half_edges.dom().contains(start),
        exists|n: nat| before.walk_reaches(start, end, n),
        before.half_edges[end].edge_loop is Some,
        before.splits_face(after, start, end, res),
    ensures
        after.is_consistent(),
{
    let n = choose|n: nat| before.walk_reaches(start, end, n);
    let hse = after.edges[res.edge].pos;
    let hes = after.edges[res.edge].neg;
    let p = before.prev(start);
    let q = before.prev(end);
    lemma_walk_in_loop(before, start, n);
    assert(before.he_links_ok(start));
    assert(before.he_links_ok(end));
    assert forall|k: HalfEdgeKey| after.half_edges.dom().contains(k) implies #[trigger] after.meets_twin(k) by {
        if k != hse && k != hes {
            assert(before.meets_twin(k));
            assert(before.he_links_ok(k));
            if before.half_edges[k].edge is Some {
                lemma_twin_twin(before, k);
                assert(before.edges.dom().contains(before.half_edges[k].edge->Some_0));
            }
        }
    }
}

/// Walking from `end` to the first meeting with an unmoved half-edge `k`
/// of the loop, a face split does not pass the half-edge before `start`.
proof fn lemma_split_face_side_avoids_prev(
    s: SolidView,
    start: HalfEdgeKey,
    end: HalfEdgeKey,
    n: nat,
    k: HalfEdgeKey,
    d: nat,
    c: nat,
)
    requires
        s.is_valid(),
        s.half_edges.dom().contains(start),
        s.walk_reaches(start, end, n),
        s.half_edges[end].edge_loop is Some,
        s.walk_reaches(end, k, d),
        !s.walk_visits(start, k, n),
        c < d,
    ensures
        s.walk(end, c) != s.prev(start),
{
    lemma_split_face_walk(s, start, end, n);
    if s.walk(end, c) == s.prev(start) {
        let r = (d - c - 1) as nat;
        assert(s.walk(end, c + 1) == start);
        lemma_walk_add(s, end, c + 1, r);
        assert(c + 1 + r == d);
        assert(s.walk(start, r) == k);
        if r < n {
            assert(s.walk_visits(start, k, n));
        } else {
            lemma_walk_add(s, start, n, (r - n) as nat);
            assert(s.walk(end, (r - n) as nat) == k);
        }
    }
}

/// Walking from `end` up to the first meeting with an unmoved half-edge
/// `k` of the loop, a face split meets no half-edge that it moves.
proof fn lemma_split_face_side_unmoved(
    s: SolidView,
    start: HalfEdgeKey,
    end: HalfEdgeKey,
    n: nat,
    k: HalfEdgeKey,
    d: nat,
    c: nat,
)
    requires
        s.is_valid(),
        s.half_edges.dom().contains(start),
        s.walk_reaches(start, end, n),
        s.half_edges[end].edge_loop is Some,
        s.walk_reaches(end, k, d),
        !s.walk_visits(start, k, n),
        c <= d,
    ensures
        s.half_edges.dom().contains(s.walk(end, c)),
        !s.walk_visits(start, s.walk(end, c), n),
    decreases c,
{
    lemma_split_face_walk(s, start, end, n);
    lemma_walk_in_loop(s, end, c);
    if c > 0 {
        lemma_split_face_side_unmoved(s, start, end, n, k, d, (c - 1) as nat);
        lemma_split_face_side_avoids_prev(s, start, end, n, k, d, (c - 1) as nat);
        let x = s.walk(end, (c - 1) as nat);
        assert(s.next(x) == s.walk(end, c));
    }
}

/// Splitting a face of a valid solid leaves its loops connected.
proof fn lemma_split_face_keeps_loops_connected(
    before: SolidView,
    after: SolidView,
    start: HalfEdgeKey,
    end: HalfEdgeKey,
    res: SplitFaceRes,
)
    requires
        before.is_valid(),
        before.half_edges.dom().contains(start),
        exists|n: nat| before.walk_reaches(start, end, n),
        before.half_edges[end].edge_loop is Some,
        before.splits_face(after, start, end, res),
    ensures
        after.loops_connected(),
{
    let n = choose|n: nat| before.walk_reaches(start, end, n);
    let hse = after.edges[res.edge].pos;
    let hes = after.edges[res.edge].neg;
    let l = before.half_edges[end].edge_loop->Some_0;
    let p = before.prev(start);
    let q = before.prev(end);
    lemma_split_face_walk(before, start, end, n);
    assert(before.he_links_ok(end));
    if start != end {
        lemma_walk_prev(before, start, n);
    }
    assert forall|k: HalfEdgeKey| after.half_edges.dom().contains(k) implies #[trigger] after.on_its_loop(k) by {
        if k == hse {
            assert(after.half_edges[hse].edge_loop == Some(l));
            assert(after.edge_loops[l].half_edge == hse);
            assert(after.walk(hse, 0) == hse);
        } else if k == hes {
            assert(after.half_edges[hes].edge_loop == Some(res.edge_loop));
            assert(after.edge_loops[res.edge_loop].half_edge == hes);
            assert(after.walk(hes, 0) == hes);
        } else if before.walk_visits(start, k, n) {
            // the moved half-edges follow `hes` in the new loop
            let j = choose|j: nat| j < n && #[trigger] before.walk(start, j) == k;
            assert forall|i: nat| i < j implies #[trigger] after.next(before.walk(start, i))
                == before.next(before.walk(start, i)) by {
                lemma_walk_in_loop(before, start, i);
                if before.walk(start, i) == q {
                    assert(before.walk(start, i + 1) == end);
                }
                assert(before.walk(start, i) != p);
            }
            lemma_walk_same_next(before, after, start, j);
            assert(after.walk(hes, 0) == hes);
            assert(after.walk(hes, 1) == after.next(hes));
            assert(after.next(hes) == start);
            assert(after.walk(start, j) == k);
            lemma_walk_add(after, hes, 1, j);
            assert(after.walk(hes, 1 + j) == k);
            assert(after.half_edges[k].edge_loop == Some(res.edge_loop));
            assert(after.edge_loops[res.edge_loop].half_edge == hes);
        } else {
            assert(before.on_its_loop(k));
            if before.half_edges[k].edge_loop is Some {
                let lk = before.half_edges[k].edge_loop->Some_0;
                assert(before.he_refs_ok(k));
                assert(before.loop_ok(lk));
                let o = before.edge_loops[lk].half_edge;
                let i = choose|i: nat| #[trigger] before.walk(o, i) == k;
                if lk != l {
                    // another loop: its walk does not pass the split
                    assert forall|c: nat| c < i implies #[trigger] after.next(before.walk(o, c))
                        == before.next(before.walk(o, c)) by {
                        lemma_walk_in_loop(before, o, c);
                        if before.walk_visits(start, before.walk(o, c), n) {
                            assert(before.half_edges[before.walk(o, c)].edge_loop == Some(l));
                        }
                    }
                    lemma_walk_same_next(before, after, o, i);
                    assert(after.walk(o, i) == k);
                    assert(after.half_edges[k].edge_loop == Some(lk));
                    assert(after.edge_loops[lk].half_edge == o);
                } else {
                    // the old loop: `k` follows `end`, which follows `hse`
                    assert(before.on_its_loop(end));
                    let ie = choose|ie: nat| #[trigger] before.walk(o, ie) == end;
                    lemma_walk_back(before, o, ie);
                    let jb = choose|jb: nat| #[trigger] before.walk(before.walk(o, ie), jb) == o;
                    lemma_walk_add(before, end, jb, i);
                    lemma_first_reach(before, end, k, jb + i);
                    let d = choose|d: nat| d <= jb + i && #[trigger] before.walk_reaches(end, k, d);
                    assert forall|c: nat| c < d implies #[trigger] after.next(before.walk(end, c))
                        == before.next(before.walk(end, c)) by {
                        lemma_split_face_side_unmoved(before, start, end, n, k, d, c);
                        lemma_split_face_side_avoids_prev(before, start, end, n, k, d, c);
                        if start != end && before.walk(end, c) == q {
                            assert(before.walk_visits(start, q, n));
                        }
                    }
                    lemma_walk_same_next(before, after, end, d);
                    assert(after.walk(hse, 0) == hse);
                    assert(after.walk(hse, 1) == after.next(hse));
                    assert(after.next(hse) == end);
                    assert(before.walk(end, d) == k);
                    assert(after.walk(end, d) == k);
                    lemma_walk_add(after, hse, 1, d);
                    assert(after.walk(hse, 1 + d) == k);
                    assert(after.half_edges[k].edge_loop == Some(l));
                    assert(after.edge_loops[l].half_edge == hse);
                }
            }
        }
    }
}

/// Splitting a face adds an edge, a face and a loop: the Euler count of a
/// valid solid stays as it was.
pub proof fn lemma_split_face_counts(
    before: SolidView,
    after: SolidView,
    start: HalfEdgeKey,
    end: HalfEdgeKey,
    res: SplitFaceRes,
)
    requires
        before.is_valid(),
        before.half_edges.dom().contains(start),
        exists|n: nat| before.walk_reaches(start, end, n),
        before.half_edges[end].edge_loop is Some,
        before.splits_face(after, start, end, res),
    ensures
        after.vertices.len() == before.vertices.len(),
        after.edges.len() == before.edges.len() + 1,
        after.faces.len() == before.faces.len() + 1,
        after.edge_loops.len() == before.edge_loops.len() + 1,
        after.euler_count() == before.euler_count(),
{
    let n = choose|n: nat| before.walk_reaches(start, end, n);
    lemma_walk_in_loop(before, start, n);
    assert(before.he_refs_ok(start));
    assert(before.he_refs_ok(end));
    let vs = before.half_edges[start].vertex;
    let ve = before.half_edges[end].vertex;
    let l = before.half_edges[end].edge_loop->Some_0;
    assert(with_vertex_he(before.vertices, vs, Some(after.edges[res.edge].pos)).dom()
        =~= before.vertices.dom());
    assert(after.vertices.dom() =~= before.vertices.dom());
    assert(before.edge_loops.insert(l, EdgeLoop { half_edge: after.edges[res.edge].pos, ..before.edge_loops[l] }).dom()
        =~= before.edge_loops.dom());
}

/// Splitting a ring from a loop of a valid, consistent solid leaves it
/// consistent.
pub proof fn lemma_split_ring_keeps_consistent(
    before: SolidView,
    after: SolidView,
    e: EdgeKey,
    nl: EdgeLoopKey,
)
    requires
        before.is_valid(),
        before.is_consistent(),
        before.edges.dom().contains(e),
        exists|m: nat| before.walk_reaches(before.next(before.edges[e].pos), before.edges[e].neg, m),
        before.splits_ring(after, e, nl),
    ensures
        after.is_consistent(),
{
    let p = before.edges[e].pos;
    let n = before.edges[e].neg;
    let m = choose|m: nat| before.walk_reaches(before.next(p), n, m);
    lemma_ring_sides(before, e, m);
    assert(before.edge_ok(e));
    assert(before.meets_twin(p));
    assert(before.meets_twin(n));
    assert(before.twin(p) == n);
    assert(before.twin(n) == p);
    assert forall|k: HalfEdgeKey| after.half_edges.dom().contains(k) implies #[trigger] after.meets_twin(k) by {
        if k != p && k != n {
            assert(before.meets_twin(k));
            assert(before.he_links_ok(k));
            if before.half_edges[k].edge is Some {
                lemma_twin_twin(before, k);
            }
            if before.next(k) == n {
                lemma_next_injective(before, k, before.prev(n));
            }
            if before.next(k) == p {
                lemma_next_injective(before, k, before.prev(p));
            }
        }
    }
}

/// Walking on from the positive half-edge of an edge whose two half-edges
/// share a loop, an unmoved half-edge `k` of that loop other than the two
/// is met only after coming round to the half-edge after the negative one.
proof fn lemma_ring_past_pos(s: SolidView, e: EdgeKey, m: nat, k: HalfEdgeKey, r: nat)
    requires
        s.is_valid(),
        s.edges.dom().contains(e),
        s.walk_reaches(s.next(s.edges[e].pos), s.edges[e].neg, m),
        s.walk(s.edges[e].pos, r) == k,
        !s.walk_visits(s.next(s.edges[e].pos), k, m),
        k != s.edges[e].pos,
        k != s.edges[e].neg,
    ensures
        r >= m + 2,
        s.walk(s.next(s.edges[e].neg), (r - m - 2) as nat) == k,
{
    let p = s.edges[e].pos;
    let n = s.edges[e].neg;
    let pn = s.next(p);
    assert(r != 0);
    assert(s.walk(p, 0) == p);
    assert(s.walk(p, 1) == pn);
    lemma_walk_add(s, p, 1, (r - 1) as nat);
    assert(s.walk(pn, (r - 1) as nat) == k);
    if r - 1 < m {
        assert(s.walk_visits(pn, k, m));
    }
    assert(r - 1 != m);
    lemma_walk_add(s, pn, m, (r - 1 - m) as nat);
    assert(s.walk(n, (r - 1 - m) as nat) == k);
    assert(s.walk(n, 0) == n);
    assert(s.walk(n, 1) == s.next(n));
    lemma_walk_add(s, n, 1, (r - 2 - m) as nat);
}

/// Walking from the half-edge after the negative half-edge of `e` to the
/// first meeting with an unmoved half-edge `k` of the loop, a ring split
/// does not pass the half-edge before the positive one.
proof fn lemma_ring_side_avoids_prev(
    s: SolidView,
    e: EdgeKey,
    m: nat,
    k: HalfEdgeKey,
    d: nat,
    c: nat,
)
    requires
        s.is_valid(),
        s.edges.dom().contains(e),
        s.walk_reaches(s.next(s.edges[e].pos), s.edges[e].neg, m),
        s.walk_reaches(s.next(s.edges[e].neg), k, d),
        !s.walk_visits(s.next(s.edges[e].pos), k, m),
        k != s.edges[e].pos,
        k != s.edges[e].neg,
        c < d,
    ensures
        s.walk(s.next(s.edges[e].neg), c) != s.prev(s.edges[e].pos),
{
    let p = s.edges[e].pos;
    let nn = s.next(s.edges[e].neg);
    lemma_ring_sides(s, e, m);
    if s.walk(nn, c) == s.prev(p) {
        let r = (d - c - 1) as nat;
        assert(s.walk(nn, c + 1) == p);
        lemma_walk_add(s, nn, c + 1, r);
        assert(c + 1 + r == d);
        lemma_ring_past_pos(s, e, m, k, r);
        assert(s.walk(nn, (r - m - 2) as nat) == k);
    }
}

/// Walking from the half-edge after the negative half-edge of `e` up to
/// the first meeting with an unmoved half-edge `k` of the loop, a ring
/// split meets neither half-edge of `e` nor any half-edge it moves.
proof fn lemma_ring_side_unmoved(
    s: SolidView,
    e: EdgeKey,
    m: nat,
    k: HalfEdgeKey,
    d: nat,
    c: nat,
)
    requires
        s.is_valid(),
        s.edges.dom().contains(e),
        s.half_edges[s.edges[e].neg].edge_loop == s.half_edges[s.edges[e].pos].edge_loop,
        s.walk_reaches(s.next(s.edges[e].pos), s.edges[e].neg, m),
        s.walk_reaches(s.next(s.edges[e].neg), k, d),
        !s.walk_visits(s.next(s.edges[e].pos), k, m),
        k != s.edges[e].pos,
        k != s.edges[e].neg,
        s.next(s.edges[e].neg) != s.edges[e].pos,
        c <= d,
    ensures
        s.half_edges.dom().contains(s.walk(s.next(s.edges[e].neg), c)),
        !s.walk_visits(s.next(s.edges[e].pos), s.walk(s.next(s.edges[e].neg), c), m),
        s.walk(s.next(s.edges[e].neg), c) != s.edges[e].pos,
        s.walk(s.next(s.edges[e].neg), c) != s.edges[e].neg,
    decreases c,
{
    let p = s.edges[e].pos;
    let n = s.edges[e].neg;
    let pn = s.next(p);
    let nn = s.next(n);
    lemma_ring_sides(s, e, m);
    lemma_split_ring_walk(s, e, m);
    lemma_walk_in_loop(s, nn, c);
    if c > 0 {
        lemma_ring_side_unmoved(s, e, m, k, d, (c - 1) as nat);
        lemma_ring_side_avoids_prev(s, e, m, k, d, (c - 1) as nat);
        let x = s.walk(nn, (c - 1) as nat);
        assert(s.next(x) == s.walk(nn, c));
        if s.next(x) == p {
            lemma_next_injective(s, x, s.prev(p));
        }
        if s.next(x) == n {
            lemma_next_injective(s, x, s.prev(n));
        }
    }
}

/// Splitting a ring from a loop of a valid solid leaves its loops connected.
proof fn lemma_split_ring_keeps_loops_connected(
    before: SolidView,
    after: SolidView,
    e: EdgeKey,
    nl: EdgeLoopKey,
)
    requires
        before.is_valid(),
        before.edges.dom().contains(e),
        before.half_edges[before.edges[e].neg].edge_loop == before.half_edges[before.edges[e].pos].edge_loop,
        before.half_edges[before.edges[e].neg].edge_loop is Some,
        exists|m: nat| before.walk_reaches(before.next(before.edges[e].pos), before.edges[e].neg, m),
        before.splits_ring(after, e, nl),
    ensures
        after.loops_connected(),
{
    let p = before.edges[e].pos;
    let n = before.edges[e].neg;
    let pp = before.prev(p);
    let pn = before.next(p);
    let np = before.prev(n);
    let nn = before.next(n);
    let l = before.half_edges[n].edge_loop->Some_0;
    let m = choose|m: nat| before.walk_reaches(pn, n, m);
    lemma_ring_sides(before, e, m);
    lemma_split_ring_walk(before, e, m);
    assert forall|k: HalfEdgeKey| after.half_edges.dom().contains(k) implies #[trigger] after.on_its_loop(k) by {
        if k == n {
            assert(pn == n);
            assert(after.half_edges[k].edge_loop == Some(nl));
            assert(after.edge_loops[nl].half_edge == n);
            assert(after.walk(n, 0) == n);
        } else if k == p {
            assert(nn == p);
            assert(after.half_edges[k].edge_loop == Some(l));
            assert(after.edge_loops[l].half_edge == p);
            assert(after.walk(p, 0) == p);
        } else if before.walk_visits(pn, k, m) {
            let j = choose|j: nat| j < m && #[trigger] before.walk(pn, j) == k;
            assert forall|i: nat| i < j implies #[trigger] after.next(before.walk(pn, i))
                == before.next(before.walk(pn, i)) by {
                lemma_walk_in_loop(before, pn, i);
                if before.walk(pn, i) == np {
                    assert(before.walk(pn, i + 1) == n);
                }
                assert(before.walk_visits(pn, before.walk(pn, i), m));
            }
            lemma_walk_same_next(before, after, pn, j);
            assert(after.walk(pn, j) == k);
            assert(after.half_edges[k].edge_loop == Some(nl));
            assert(after.edge_loops[nl].half_edge == pn);
        } else {
            assert(before.on_its_loop(k));
            if before.half_edges[k].edge_loop is Some {
                let lk = before.half_edges[k].edge_loop->Some_0;
                assert(before.he_refs_ok(k));
                assert(before.loop_ok(lk));
                let o = before.edge_loops[lk].half_edge;
                let i = choose|i: nat| #[trigger] before.walk(o, i) == k;
                if lk != l {
                    assert forall|c: nat| c < i implies #[trigger] after.next(before.walk(o, c))
                        == before.next(before.walk(o, c)) by {
                        lemma_walk_in_loop(before, o, c);
                        assert(before.he_refs_ok(pp));
                        assert(before.he_refs_ok(np));
                        assert(before.he_refs_ok(p));
                    }
                    lemma_walk_same_next(before, after, o, i);
                    assert(after.walk(o, i) == k);
                    assert(after.half_edges[k].edge_loop == Some(lk));
                    assert(after.edge_loops[lk].half_edge == o);
                } else {
                    assert(before.on_its_loop(nn));
                    assert(before.he_refs_ok(n));
                    let ie = choose|ie: nat| #[trigger] before.walk(o, ie) == nn;
                    lemma_walk_back(before, o, ie);
                    let jb = choose|jb: nat| #[trigger] before.walk(before.walk(o, ie), jb) == o;
                    lemma_walk_add(before, nn, jb, i);
                    lemma_first_reach(before, nn, k, jb + i);
                    let d = choose|d: nat| d <= jb + i && #[trigger] before.walk_reaches(nn, k, d);
                    if nn == p {
                        lemma_ring_past_pos(before, e, m, k, d);
                        assert(before.walk(nn, (d - m - 2) as nat) == k);
                    }
                    assert forall|c: nat| c < d implies #[trigger] after.next(before.walk(nn, c))
                        == before.next(before.walk(nn, c)) by {
                        lemma_ring_side_unmoved(before, e, m, k, d, c);
                        lemma_ring_side_avoids_prev(before, e, m, k, d, c);
                        if pn != n && before.walk(nn, c) == np {
                            assert(before.walk_visits(pn, np, m));
                        }
                    }
                    lemma_walk_same_next(before, after, nn, d);
                    assert(after.walk(nn, d) == k);
                    assert(after.half_edges[k].edge_loop == Some(l));
                    assert(after.edge_loops[l].half_edge == nn);
                }
            }
        }
    }
}

/// Splitting a ring from a loop trades an edge for a loop: the Euler count
/// of a valid solid stays as it was.
pub proof fn lemma_split_ring_counts(before: SolidView, after: SolidView, e: EdgeKey, nl: EdgeLoopKey)
    requires
        before.is_valid(),
        before.edges.dom().contains(e),
        before.half_edges[before.edges[e].neg].edge_loop is Some,
        before.splits_ring(after, e, nl),
    ensures
        after.vertices.len() == before.vertices.len(),
        after.edges.len() == before.edges.len() - 1,
        after.faces.len() == before.faces.len(),
        after.edge_loops.len() == before.edge_loops.len() + 1,
        after.euler_count() == before.euler_count(),
{
    let p = before.edges[e].pos;
    let n = before.edges[e].neg;
    let l = before.half_edges[n].edge_loop->Some_0;
    assert(before.edge_ok(e));
    assert(before.he_refs_ok(n));
    assert(before.he_refs_ok(p));
    assert(after.vertices.dom() =~= before.vertices.dom());
    assert(before.edge_loops.insert(l, EdgeLoop { half_edge: before.next(n), ..before.edge_loops[l] }).dom()
        =~= before.edge_loops.dom());
}

// Low level euler operators
impl<S: TopologyWrite> Topology<S> {
    /// Split a loop along half-edges that occur twice, which if created properly,
    /// should be an edge. The half-edges following the postive side are assigned
    /// to the new loop.
    ///
    /// For example, if you had a loop with one outer loop and one inner loop and
    /// the positive side of the edge points towards the inner loop, the inner
    /// loop will be assigned to the new loop.
    ///
    /// It will not delete the both half-edges if they belong to a strut edge;
    /// only the ones on the side that is not a strut are deleted, otherwise
    /// they are repurposed
    pub fn split_ring_from_loop(&mut self, edge_key: EdgeKey) -> (new_loop: EdgeLoopKey)
        requires
            old(self)@.is_valid(),
            old(self)@.edges.dom().contains(edge_key),
            old(self)@.half_edges[old(self)@.edges[edge_key].neg].edge_loop == old(
                self,
            )@.half_edges[old(self)@.edges[edge_key].pos].edge_loop,
            old(self)@.half_edges[old(self)@.edges[edge_key].neg].edge_loop is Some,
            exists|m: nat|
                old(self)@.walk_reaches(
                    old(self)@.next(old(self)@.edges[edge_key].pos),
                    old(self)@.edges[edge_key].neg,
                    m,
                ),
            old(self)@.edge_loops.len() < SLOT_CAPACITY,
        ensures
            old(self)@.splits_ring(final(self)@, edge_key, new_loop),
    {
        let ghost s = self@;
        let ghost m = choose|m: nat|
            s.walk_reaches(s.next(s.edges[edge_key].pos), s.edges[edge_key].neg, m);
        proof {
            lemma_ring_sides(s, edge_key, m);
        }
        // the two half-edges of the edge
        let edge = self.solid.edge(edge_key);
        let neg_key = edge.neg;
        let pos_key = edge.pos;

        // which sides are empty, while the edge still exists
        let strut_pos = self.edge_is_strut_pos(edge_key);
        let strut_neg = self.solid.half_edge(neg_key).get_next() == pos_key;

        // de-identify so we can remove the half-edges properly
        self.solid.rm_edge(edge_key);

        // fix neighbor topology before half-edge removal
        let neg_edge_loop = self.solid.half_edge(neg_key).get_edge_loop();
        let neg_neigh = self.solid.half_edge(neg_key).neighbors();
        let pos_neigh = self.solid.half_edge(pos_key).neighbors();

        // for the new loop (positive side)
        if strut_pos {
            // edge case: strut edge on positive side
            // use neg as the new empty half-edge
            let neigh = HalfEdgeNeighbors { next: neg_key, prev: neg_key };
            self.solid.set_he_neighbors(neg_key, neigh);
        } else {
            // close the half-edges following pos into a loop
            self.solid.half_edge_mut(neg_neigh.prev).set_next(pos_neigh.next);
            self.solid.half_edge_mut(pos_neigh.next).set_prev(neg_neigh.prev);
        }

        // for the unchanged loop (neg side)
        if strut_neg {
            // edge case: strut edge on negative side
            // make pos empty
            let neigh = HalfEdgeNeighbors { next: pos_key, prev: pos_key };
            self.solid.set_he_neighbors(pos_key, neigh);
        } else {
            // close the half-edges following neg into a loop
            self.solid.half_edge_mut(pos_neigh.prev).set_next(neg_neigh.next);
            self.solid.half_edge_mut(neg_neigh.next).set_prev(pos_neigh.prev);
        }

        // remove the half-edges that were not repurposed
        if !strut_pos {
            let neigh = HalfEdgeNeighbors { next: neg_key, prev: neg_key };
            self.solid.set_he_neighbors(neg_key, neigh);
            self.solid.half_edge_mut(neg_key).edge_loop = None;
            self.solid.rm_half_edge(neg_key);
        }
        if !strut_neg {
            let neigh = HalfEdgeNeighbors { next: pos_key, prev: pos_key };
            self.solid.set_he_neighbors(pos_key, neigh);
            self.solid.half_edge_mut(pos_key).edge_loop = None;
            self.solid.rm_half_edge(pos_key);
        }
        let ghost s1 = self@;

        // associate half-edges with new loop
        let new_loop = self.solid.add_edge_loop(EdgeLoop::new(pos_neigh.next));
        let ghost j0: nat = if strut_pos {
            0
        } else {
            1
        };
        proof {
            assert(self@.half_edges =~= s.split_ring_half_edges(edge_key, j0, new_loop)) by {
                assert forall|k: HalfEdgeKey|
                    s.walk_visits(pos_neigh.next, k, j0) == (!strut_pos && k == pos_neigh.next) by {
                    if !strut_pos && k == pos_neigh.next {
                        assert(s.walk(pos_neigh.next, 0) == k);
                    }
                }
            }
        }
        let mut he = self.solid.half_edge(pos_neigh.next).get_next();
        let ghost mut j: nat = j0;
        proof {
            if !strut_pos && m > 1 {
                lemma_ring_sides(s, edge_key, m);
                lemma_walk_no_return(s, pos_neigh.next, neg_key, m, (m - 1) as nat);
                assert(s.walk(pos_neigh.next, 0) == pos_neigh.next);
                assert(s.walk(pos_neigh.next, 1) == s.next(pos_neigh.next));
                assert(pos_neigh.next != s.prev(pos_key));
                assert(pos_neigh.next != neg_neigh.prev);
                assert(he == s.walk(pos_neigh.next, 1));
            }
        }
        // keep going till we come back to the origin of the next loop
        while he != pos_neigh.next
            invariant
                s.is_valid(),
                s.edges.dom().contains(edge_key),
                s.walk_reaches(pos_neigh.next, neg_key, m),
                pos_key == s.edges[edge_key].pos,
                neg_key == s.edges[edge_key].neg,
                pos_neigh.next == s.next(pos_key),
                neg_neigh.prev == s.prev(neg_key),
                strut_pos == (pos_neigh.next == neg_key),
                !s.edge_loops.dom().contains(new_loop),
                j0 <= j <= m,
                j0 == 0 ==> m == 0,
                j < m ==> he == s.walk(pos_neigh.next, j),
                j == m ==> he == pos_neigh.next,
                self@.half_edges == s.split_ring_half_edges(edge_key, j, new_loop),
                self@.vertices == s1.vertices,
                self@.edges == s1.edges,
                self@.faces == s1.faces,
                self@.edge_loops == s1.edge_loops.insert(
                    new_loop,
                    EdgeLoop { half_edge: pos_neigh.next, face: None },
                ),
            decreases m - j,
        {
            proof {
                lemma_ring_sides(s, edge_key, m);
                assert(s.walk_visits(pos_neigh.next, he, m));
            }
            self.solid.half_edge_mut(he).edge_loop = Some(new_loop);
            he = self.solid.half_edge(he).get_next();
            proof {
                j = j + 1;
                if j < m {
                    lemma_walk_no_return(s, pos_neigh.next, neg_key, m, j);
                }
                assert(self@.half_edges =~= s.split_ring_half_edges(edge_key, j, new_loop)) by {
                    assert forall|k: HalfEdgeKey|
                        s.walk_visits(pos_neigh.next, k, j) == (s.walk_visits(
                            pos_neigh.next,
                            k,
                            (j - 1) as nat,
                        ) || k == s.walk(pos_neigh.next, (j - 1) as nat)) by {
                        if s.walk_visits(pos_neigh.next, k, j) {
                            let i = choose|i: nat|
                                i < j && #[trigger] s.walk(pos_neigh.next, i) == k;
                            if i < j - 1 {
                                assert(s.walk_visits(pos_neigh.next, k, (j - 1) as nat));
                            }
                        }
                        if s.walk_visits(pos_neigh.next, k, (j - 1) as nat) {
                            let i = choose|i: nat|
                                i < j - 1 && #[trigger] s.walk(pos_neigh.next, i) == k;
                            assert(s.walk(pos_neigh.next, i) == k);
                        }
                    }
                }
            }
        }

        proof {
            if j < m {
                if j > 0 {
                    lemma_walk_no_return(s, pos_neigh.next, neg_key, m, j);
                }
            }
            assert(j == m);
        }

        // reassign loop origin (old loop, negative side)
        self.set_loop_origin(neg_edge_loop, neg_neigh.next);
        proof {
            assert(self@.edge_loops =~= s.edge_loops.insert(
                neg_edge_loop,
                EdgeLoop { half_edge: neg_neigh.next, ..s.edge_loops[neg_edge_loop] },
            ).insert(new_loop, EdgeLoop { half_edge: pos_neigh.next, face: None }));
            assert(self@.edges =~= s.edges.remove(edge_key));
        }

        new_loop
    }
}

/// The keys of what `split_face` created.
#[derive(Clone, Copy, PartialEq, Eq, Structural, Debug)]
pub struct SplitFaceRes {
    pub face: FaceKey,
    pub edge_loop: EdgeLoopKey,
    pub edge: EdgeKey,
}

} // verus!
