use vstd::prelude::*;

pub mod edge;
pub mod edge_loop;
pub mod face;
pub mod half_edge;
pub mod storage;
pub mod vertex;

use super::view::{face_loops, linked_after, linked_before, with_loops_face, SolidView};
use super::{Topology, TopologyRead, TopologyWrite};
use crate::scalar::UInteger;
use edge::{Edge, EdgeKey};
use edge_loop::{EdgeLoop, EdgeLoopKey};
use face::{Face, FaceKey};
use half_edge::{HalfEdge, HalfEdgeKey, HalfEdgeNeighbors};
use storage::{
    Slots,
    edge_loop_slots, edge_loop_slots_get, edge_loop_slots_get_mut, edge_loop_slots_insert,
    edge_loop_slots_len, edge_loop_slots_new, edge_loop_slots_remove, edge_slots, edge_slots_get,
    edge_slots_get_mut, edge_slots_insert, edge_slots_len, edge_slots_new, edge_slots_remove,
    face_slots, face_slots_get, face_slots_get_mut, face_slots_insert, face_slots_len,
    face_slots_new, face_slots_remove, half_edge_slots, half_edge_slots_get,
    half_edge_slots_get_mut, half_edge_slots_insert, half_edge_slots_len, half_edge_slots_new,
    half_edge_slots_remove, vertex_slots, vertex_slots_get, vertex_slots_get_mut,
    vertex_slots_insert, vertex_slots_len, vertex_slots_new, vertex_slots_remove,
};
use vertex::{Vertex, VertexKey};

verus! {

/// The key of a solid, for a collection that holds several.
#[derive(Clone, Copy, PartialEq, Eq, Structural, Debug, Hash)]
pub struct SolidKey {
    pub(crate) data: u64,
}

/// The first `i + 1` loops hold a loop exactly when the first `i` do or it
/// is loop number `i`.
proof fn lemma_take_one_more(loops: Seq<EdgeLoopKey>, i: int)
    requires
        0 <= i < loops.len(),
    ensures
        forall|l: EdgeLoopKey|
            #[trigger] loops.take(i + 1).contains(l) == (loops.take(i).contains(l) || l == loops[i]),
{
    assert forall|l: EdgeLoopKey|
        #[trigger] loops.take(i + 1).contains(l) == (loops.take(i).contains(l) || l == loops[i]) by {
        if loops.take(i + 1).contains(l) {
            let j = choose|j: int| 0 <= j < i + 1 && #[trigger] loops.take(i + 1)[j] == l;
            if j < i {
                assert(loops.take(i)[j] == l);
            }
        }
        if loops.take(i).contains(l) {
            let j = choose|j: int| 0 <= j < i && #[trigger] loops.take(i)[j] == l;
            assert(loops.take(i + 1)[j] == l);
        }
        if l == loops[i] {
            assert(loops.take(i + 1)[i] == l);
        }
    }
}

/// A solid.
pub struct Solid {
    /// A SlotMap of the [faces](face) this solid owns
    faces: Slots<Face>,
    /// A SlotMap of the [loops](edge_loop) this solid owns
    edge_loops: Slots<EdgeLoop>,
    /// A SlotMap of the [edges](edge) this solid owns
    edges: Slots<Edge>,
    /// A SlotMap of the [half-edges](half_edge) this solid owns
    half_edges: Slots<HalfEdge>,
    /// A SlotMap of the [vertices](vertex) this solid owns
    vertices: Slots<Vertex>,
}

impl Solid {
    /// Each slot map holds finitely many elements.
    #[verifier::type_invariant]
    closed spec fn finitely_many(self) -> bool {
        &&& vertex_slots(self.vertices).dom().finite()
        &&& half_edge_slots(self.half_edges).dom().finite()
        &&& edge_slots(self.edges).dom().finite()
        &&& edge_loop_slots(self.edge_loops).dom().finite()
        &&& face_slots(self.faces).dom().finite()
    }

    /// Get a topology context for this solid.
    pub fn topology(&self) -> (t: Topology<&Self>)
        ensures
            t.solid == self,
            t@ == self.solid_view(),
    {
        Topology { solid: self }
    }

    /// Get a mutable topology context for this solid.
    ///
    /// The operators called through the context change this solid. Their
    /// contracts speak of the context's view; verified code that needs to
    /// follow the solid through them holds it in a `Topology` by value
    /// (`Topology { solid }`) and takes it back from the `solid` field.
    pub fn topology_mut(&mut self) -> (t: Topology<&mut Self>)
        ensures
            *t.solid == *old(self),
            t@ == old(self).solid_view(),
            *final(self) == *final(t.solid),
    {
        Topology { solid: self }
    }

    /// Create a new empty solid
    pub fn new() -> (s: Self)
        ensures
            s.solid_view() == SolidView::empty(),
    {
        let s = Self {
            faces: face_slots_new(),
            edge_loops: edge_loop_slots_new(),
            edges: edge_slots_new(),
            half_edges: half_edge_slots_new(),
            vertices: vertex_slots_new(),
        };
        assert(s.solid_view().vertices =~= Map::empty());
        assert(s.solid_view().half_edges =~= Map::empty());
        assert(s.solid_view().edges =~= Map::empty());
        assert(s.solid_view().edge_loops =~= Map::empty());
        assert(s.solid_view().faces =~= Map::empty());
        s
    }

    /// Move the contents out of this solid, leaving it empty.
    pub(crate) fn take(&mut self) -> (s: Self)
        ensures
            s.solid_view() == old(self).solid_view(),
            (*final(self)).solid_view() == SolidView::empty(),
    {
        let mut s = Solid::new();
        std::mem::swap(&mut s, self);
        s
    }

    /// The number of vertices in this solid.
    pub fn n_vertices(&self) -> (n: UInteger)
        ensures
            n == self.solid_view().vertices.len(),
    {
        vertex_slots_len(&self.vertices) as UInteger
    }

    /// The number of half-edges in this solid.
    pub fn n_half_edges(&self) -> (n: UInteger)
        ensures
            n == self.solid_view().half_edges.len(),
    {
        half_edge_slots_len(&self.half_edges) as UInteger
    }

    /// The number of edges in this solid.
    pub fn n_edges(&self) -> (n: UInteger)
        ensures
            n == self.solid_view().edges.len(),
    {
        edge_slots_len(&self.edges) as UInteger
    }

    /// The number of edge loops in this solid.
    pub fn n_loops(&self) -> (n: UInteger)
        ensures
            n == self.solid_view().edge_loops.len(),
    {
        edge_loop_slots_len(&self.edge_loops) as UInteger
    }

    /// The number of faces in this solid.
    pub fn n_faces(&self) -> (n: UInteger)
        ensures
            n == self.solid_view().faces.len(),
    {
        face_slots_len(&self.faces) as UInteger
    }
}

// convenience methods for solid
impl Solid {
    /// Get the key of a twin of a half-edge from a `HalfEdgeKey`, if it exists
    pub fn get_he_twin_key(&self, he_key: HalfEdgeKey) -> (twin: Option<HalfEdgeKey>)
        requires
            self.solid_view().half_edges.dom().contains(he_key),
            self.solid_view().half_edges[he_key].edge is Some ==> self.solid_view().has_twin(he_key),
        ensures
            twin == (if self.solid_view().half_edges[he_key].edge is Some {
                Some(self.solid_view().twin(he_key))
            } else {
                None
            }),
            twin is Some <==> self.solid_view().half_edges[he_key].edge is Some,
            twin is Some ==> {
                let e = self.solid_view().edges[self.solid_view().half_edges[he_key].edge->Some_0];
                &&& he_key == e.pos ==> twin == Some(e.neg)
                &&& he_key != e.pos ==> twin == Some(e.pos)
            },
    {
        self.topology().he_twin_key(he_key)
    }

    /// Get the twin ("opposite" half-edge) of a half-edge from its key, if it exists
    pub fn get_he_twin(&mut self, he_key: HalfEdgeKey) -> (twin: Option<&mut HalfEdge>)
        requires
            old(self).solid_view().half_edges.dom().contains(he_key),
            old(self).solid_view().half_edges[he_key].edge is Some ==> {
                &&& old(self).solid_view().has_twin(he_key)
                &&& old(self).solid_view().half_edges.dom().contains(
                    old(self).solid_view().twin(he_key),
                )
            },
        ensures
            twin is Some == (old(self).solid_view().half_edges[he_key].edge is Some),
            twin is None ==> (*final(self)).solid_view() == old(self).solid_view(),
            twin is Some ==> *twin->Some_0 == old(self).solid_view().half_edges[old(
                self,
            ).solid_view().twin(he_key)],
            twin is Some ==> (*final(self)).solid_view() == (SolidView {
                half_edges: old(self).solid_view().half_edges.insert(
                    old(self).solid_view().twin(he_key),
                    *final(twin->Some_0),
                ),
                ..old(self).solid_view()
            }),
            twin is Some ==> {
                let e = old(self).solid_view().edges[old(
                    self,
                ).solid_view().half_edges[he_key].edge->Some_0];
                let k = if he_key == e.pos {
                    e.neg
                } else {
                    e.pos
                };
                &&& *twin->Some_0 == old(self).solid_view().half_edges[k]
                &&& (*final(self)).solid_view() == (SolidView {
                    half_edges: old(self).solid_view().half_edges.insert(k, *final(twin->Some_0)),
                    ..old(self).solid_view()
                })
            },
    {
        let twin_key = self.topology().he_twin_key(he_key)?;
        Some(self.half_edge_mut(twin_key))
    }

    /// Insert a half-edge into a loop after a specified half-edge
    pub fn insert_he_after(&mut self, he_key: HalfEdgeKey, target_key: HalfEdgeKey)
        requires
            old(self).solid_view().linked(target_key),
            old(self).solid_view().linked(old(self).solid_view().next(target_key)),
            old(self).solid_view().half_edges.dom().contains(he_key),
            (he_key == target_key) == (he_key == old(self).solid_view().next(target_key)),
        ensures
            (*final(self)).solid_view() == (SolidView {
                half_edges: linked_after(old(self).solid_view().half_edges, he_key, target_key),
                ..old(self).solid_view()
            }),
    {
        let mut t = Topology { solid: self.take() };
        t.insert_he_after(he_key, target_key);
        *self = t.solid;
    }

    /// Insert a half-edge into a loop before a specified half-edge
    pub fn insert_he_before(&mut self, he_key: HalfEdgeKey, target_key: HalfEdgeKey)
        requires
            old(self).solid_view().linked(target_key),
            old(self).solid_view().linked(old(self).solid_view().prev(target_key)),
            old(self).solid_view().half_edges.dom().contains(he_key),
            (he_key == target_key) == (he_key == old(self).solid_view().prev(target_key)),
        ensures
            (*final(self)).solid_view() == (SolidView {
                half_edges: linked_before(old(self).solid_view().half_edges, he_key, target_key),
                ..old(self).solid_view()
            }),
    {
        let mut t = Topology { solid: self.take() };
        t.insert_he_before(he_key, target_key);
        *self = t.solid;
    }

    /// Get a mutable vertex from a `VertexKey`
    pub fn get_vertex(&mut self, key: VertexKey) -> (v: &mut Vertex)
        requires
            old(self).solid_view().vertices.dom().contains(key),
        ensures
            *v == old(self).solid_view().vertices[key],
            (*final(self)).solid_view() == (SolidView {
                vertices: old(self).solid_view().vertices.insert(key, *final(v)),
                ..old(self).solid_view()
            }),
    {
        self.vertex_mut(key)
    }

    /// Get a mutable half-edge from a `HalfEdgeKey`
    pub fn get_half_edge(&mut self, key: HalfEdgeKey) -> (he: &mut HalfEdge)
        requires
            old(self).solid_view().half_edges.dom().contains(key),
        ensures
            *he == old(self).solid_view().half_edges[key],
            (*final(self)).solid_view() == (SolidView {
                half_edges: old(self).solid_view().half_edges.insert(key, *final(he)),
                ..old(self).solid_view()
            }),
    {
        self.half_edge_mut(key)
    }

    /// Get a mutable edge from an `EdgeKey`
    pub fn get_edge(&mut self, key: EdgeKey) -> (e: &mut Edge)
        requires
            old(self).solid_view().edges.dom().contains(key),
        ensures
            *e == old(self).solid_view().edges[key],
            (*final(self)).solid_view() == (SolidView {
                edges: old(self).solid_view().edges.insert(key, *final(e)),
                ..old(self).solid_view()
            }),
    {
        self.edge_mut(key)
    }

    /// Get a mutable edge loop from an `EdgeLoopKey`
    pub fn get_edge_loop(&mut self, key: EdgeLoopKey) -> (l: &mut EdgeLoop)
        requires
            old(self).solid_view().edge_loops.dom().contains(key),
        ensures
            *l == old(self).solid_view().edge_loops[key],
            (*final(self)).solid_view() == (SolidView {
                edge_loops: old(self).solid_view().edge_loops.insert(key, *final(l)),
                ..old(self).solid_view()
            }),
    {
        self.edge_loop_mut(key)
    }

    /// Get a face from a `FaceKey`
    pub fn get_face(&mut self, key: FaceKey) -> (f: &mut Face)
        requires
            old(self).solid_view().faces.dom().contains(key),
        ensures
            *f == old(self).solid_view().faces[key],
            (*final(self)).solid_view() == (SolidView {
                faces: old(self).solid_view().faces.insert(key, *final(f)),
                ..old(self).solid_view()
            }),
    {
        self.face_mut(key)
    }
}

impl TopologyRead for Solid {
    closed spec fn solid_view(&self) -> SolidView {
        SolidView {
            vertices: vertex_slots(self.vertices),
            half_edges: half_edge_slots(self.half_edges),
            edges: edge_slots(self.edges),
            edge_loops: edge_loop_slots(self.edge_loops),
            faces: face_slots(self.faces),
        }
    }

    fn vertex(&self, key: VertexKey) -> (r: &Vertex) {
        vertex_slots_get(&self.vertices, key)
    }

    fn half_edge(&self, key: HalfEdgeKey) -> (r: &HalfEdge) {
        half_edge_slots_get(&self.half_edges, key)
    }

    fn edge(&self, key: EdgeKey) -> (r: &Edge) {
        edge_slots_get(&self.edges, key)
    }

    fn edge_loop(&self, key: EdgeLoopKey) -> (r: &EdgeLoop) {
        edge_loop_slots_get(&self.edge_loops, key)
    }

    fn face(&self, key: FaceKey) -> (r: &Face) {
        face_slots_get(&self.faces, key)
    }
}

impl TopologyWrite for Solid {
    fn vertex_mut(&mut self, key: VertexKey) -> (r: &mut Vertex) {
        proof {
            use_type_invariant(&*self);
        }
        vertex_slots_get_mut(&mut self.vertices, key)
    }

    fn half_edge_mut(&mut self, key: HalfEdgeKey) -> (r: &mut HalfEdge) {
        proof {
            use_type_invariant(&*self);
        }
        half_edge_slots_get_mut(&mut self.half_edges, key)
    }

    fn edge_mut(&mut self, key: EdgeKey) -> (r: &mut Edge) {
        proof {
            use_type_invariant(&*self);
        }
        edge_slots_get_mut(&mut self.edges, key)
    }

    fn edge_loop_mut(&mut self, key: EdgeLoopKey) -> (r: &mut EdgeLoop) {
        proof {
            use_type_invariant(&*self);
        }
        edge_loop_slots_get_mut(&mut self.edge_loops, key)
    }

    fn face_mut(&mut self, key: FaceKey) -> (r: &mut Face) {
        proof {
            use_type_invariant(&*self);
        }
        face_slots_get_mut(&mut self.faces, key)
    }

    /// Moves a vertex into the solid
    fn add_vertex(&mut self, vertex: Vertex) -> (key: VertexKey) {
        proof {
            use_type_invariant(&*self);
        }
        vertex_slots_insert(&mut self.vertices, vertex)
    }

    /// Moves a vertex out of the solid.
    ///
    /// Only call this after you have removed all references to the vertex!!
    fn rm_vertex(&mut self, key: VertexKey) -> (vertex: Vertex) {
        proof {
            use_type_invariant(&*self);
        }
        vertex_slots_remove(&mut self.vertices, key).unwrap()
    }

    /// Add a halfedge to the solid.
    /// Automatically sets the half-edge as the parent of the vertex,
    /// and sets its own neighbors as itself
    fn add_half_edge(&mut self, half_edge: HalfEdge) -> (key: HalfEdgeKey) {
        proof {
            use_type_invariant(&*self);
        }
        let key = half_edge_slots_insert(&mut self.half_edges, half_edge);

        // set self as vertex parent
        let vertex_key = self.half_edge(key).vertex;
        let vertex = self.vertex_mut(vertex_key);
        vertex.half_edge = Some(key);

        // set self as neighbors
        let neighbor = HalfEdgeNeighbors { next: key, prev: key };
        self.set_he_neighbors(key, neighbor);
        proof {
            assert(self.solid_view().half_edges =~= old(self).solid_view().half_edges.insert(
                key,
                HalfEdge { neighbors: Some(neighbor), ..half_edge },
            ));
        }

        key
    }

    /// Moves a half-edge out of the solid. Automatically
    /// sets the child vertex's parent to none
    ///
    /// Only call this after you have removed all references to the half-edge!
    fn rm_half_edge(&mut self, key: HalfEdgeKey) -> (half_edge: HalfEdge) {
        proof {
            use_type_invariant(&*self);
        }
        // set child vertex parent to none
        let vtx_key = self.half_edge(key).vertex;
        self.vertex_mut(vtx_key).half_edge = None;

        half_edge_slots_remove(&mut self.half_edges, key).unwrap()
    }

    /// Insert an edge and automatically initialize its half-edges
    fn add_edge(&mut self, edge: Edge) -> (key: EdgeKey) {
        proof {
            use_type_invariant(&*self);
        }
        let key = edge_slots_insert(&mut self.edges, edge);

        // set edge as parent
        let edge = self.edge(key);
        let pos_key = edge.pos;
        let neg_key = edge.neg;

        let pos = self.half_edge_mut(pos_key);
        pos.edge = Some(key);

        let neg = self.half_edge_mut(neg_key);
        neg.edge = Some(key);

        key
    }

    /// Moves an edge out of the solid. Automatically sets the children
    /// half-edges' edge to None.
    fn rm_edge(&mut self, key: EdgeKey) -> (edge: Edge) {
        proof {
            use_type_invariant(&*self);
        }
        let edge = *self.edge(key);
        self.half_edge_mut(edge.neg).edge = None;
        self.half_edge_mut(edge.pos).edge = None;

        edge_slots_remove(&mut self.edges, key).unwrap()
    }

    /// Add an edge loop to the solid. Automatically sets the edge loop as
    /// the parent of its half-edge
    fn add_edge_loop(&mut self, edge_loop: EdgeLoop) -> (key: EdgeLoopKey) {
        proof {
            use_type_invariant(&*self);
        }
        let key = edge_loop_slots_insert(&mut self.edge_loops, edge_loop);

        // set half-edge loop parent
        let he = self.edge_loop(key).half_edge;
        self.half_edge_mut(he).edge_loop = Some(key);

        key
    }

    /// Move an edge loop out of the solid. Can only be done
    /// if only an empty half-edge is present in the loop
    fn rm_edge_loop(&mut self, key: EdgeLoopKey) -> (edge_loop: EdgeLoop) {
        proof {
            use_type_invariant(&*self);
        }
        let he_key = self.edge_loop(key).half_edge;

        // reset half-edge parent
        self.half_edge_mut(he_key).edge_loop = None;

        edge_loop_slots_remove(&mut self.edge_loops, key).unwrap()
    }

    /// Move a face into the solid.
    /// Automatically sets the face as the parent of its edge loops.
    fn add_face(&mut self, face: Face) -> (key: FaceKey) {
        proof {
            use_type_invariant(&*self);
        }
        let ghost old_view = self.solid_view();
        let ghost loops = face_loops(face);
        let key = face_slots_insert(&mut self.faces, face);
        // set outer
        let outer_key = self.face(key).outer;
        proof {
            assert(loops[0] == outer_key);
        }
        self.edge_loop_mut(outer_key).face = Some(key);
        proof {
            assert(self.solid_view().edge_loops =~= with_loops_face(
                old_view.edge_loops,
                loops.take(1),
                Some(key),
            )) by {
                lemma_take_one_more(loops, 0);
            }
        }
        // set inner
        let n = self.face(key).inner.len();
        let mut i: usize = 0;
        while i < n
            invariant
                0 <= i <= n,
                n == face.inner@.len(),
                loops == face_loops(face),
                self.solid_view().faces.dom().contains(key),
                self.solid_view().faces[key] == face,
                forall|j: int|
                    0 <= j < loops.len() ==> old_view.edge_loops.dom().contains(
                        #[trigger] loops[j],
                    ),
                self.solid_view() == (SolidView {
                    edge_loops: with_loops_face(
                        old_view.edge_loops,
                        loops.take(i + 1),
                        Some(key),
                    ),
                    faces: old_view.faces.insert(key, face),
                    ..old_view
                }),
            decreases n - i,
        {
            let edge_loop = self.face(key).inner[i];
            proof {
                assert(loops[i + 1] == edge_loop);
            }
            self.edge_loop_mut(edge_loop).face = Some(key);
            i = i + 1;
            proof {
                assert(self.solid_view().edge_loops =~= with_loops_face(
                    old_view.edge_loops,
                    loops.take(i + 1),
                    Some(key),
                )) by {
                    lemma_take_one_more(loops, i as int);
                }
            }
        }
        proof {
            assert(loops.take(n + 1) =~= loops);
        }
        key
    }

    /// Move a face out of the solid. Automatically sets the children
    /// loops to have a None parent face.
    fn rm_face(&mut self, key: FaceKey) -> (face: Face) {
        proof {
            use_type_invariant(&*self);
        }
        let ghost old_view = self.solid_view();
        let ghost loops = face_loops(old_view.faces[key]);
        // outer
        let outer_key = self.face(key).outer;
        proof {
            assert(loops[0] == outer_key);
        }
        self.edge_loop_mut(outer_key).face = None;
        proof {
            assert(self.solid_view().edge_loops =~= with_loops_face(
                old_view.edge_loops,
                loops.take(1),
                None,
            )) by {
                lemma_take_one_more(loops, 0);
            }
        }
        // inner
        let n = self.face(key).inner.len();
        let mut i: usize = 0;
        while i < n
            invariant
                0 <= i <= n,
                n == old_view.faces[key].inner@.len(),
                loops == face_loops(old_view.faces[key]),
                old_view.faces.dom().contains(key),
                forall|j: int|
                    0 <= j < loops.len() ==> old_view.edge_loops.dom().contains(
                        #[trigger] loops[j],
                    ),
                self.solid_view() == (SolidView {
                    edge_loops: with_loops_face(old_view.edge_loops, loops.take(i + 1), None),
                    ..old_view
                }),
            decreases n - i,
        {
            let edge_loop = self.face(key).inner[i];
            proof {
                assert(loops[i + 1] == edge_loop);
            }
            self.edge_loop_mut(edge_loop).face = None;
            i = i + 1;
            proof {
                assert(self.solid_view().edge_loops =~= with_loops_face(
                    old_view.edge_loops,
                    loops.take(i + 1),
                    None,
                )) by {
                    lemma_take_one_more(loops, i as int);
                }
            }
        }
        proof {
            assert(loops.take(n + 1) =~= loops);
        }
        face_slots_remove(&mut self.faces, key).unwrap()
    }

    /// Set the neighor of a half-edge.
    fn set_he_neighbors(&mut self, he_key: HalfEdgeKey, neighbors: HalfEdgeNeighbors) {
        self.half_edge_mut(he_key).neighbors = Some(neighbors);
    }
}

} // verus!
