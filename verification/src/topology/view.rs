//! The mathematical view of a solid: what it holds, by key.

use vstd::prelude::*;

use super::solid::edge::{Edge, EdgeKey};
use super::solid::edge_loop::{EdgeLoop, EdgeLoopKey};
use super::solid::face::{Face, FaceKey};
use super::solid::half_edge::{HalfEdge, HalfEdgeKey, HalfEdgeNeighbors};
use super::solid::vertex::{Vertex, VertexKey};

verus! {

/// The elements a solid holds, each kind by key.
pub struct SolidView {
    pub vertices: Map<VertexKey, Vertex>,
    pub half_edges: Map<HalfEdgeKey, HalfEdge>,
    pub edges: Map<EdgeKey, Edge>,
    pub edge_loops: Map<EdgeLoopKey, EdgeLoop>,
    pub faces: Map<FaceKey, Face>,
}

/// `vs` with the half-edge of vertex `v` set to `he`.
pub open spec fn with_vertex_he(
    vs: Map<VertexKey, Vertex>,
    v: VertexKey,
    he: Option<HalfEdgeKey>,
) -> Map<VertexKey, Vertex> {
    vs.insert(v, Vertex { half_edge: he, ..vs[v] })
}

/// `hs` with the edge of half-edge `h` set to `e`.
pub open spec fn with_he_edge(
    hs: Map<HalfEdgeKey, HalfEdge>,
    h: HalfEdgeKey,
    e: Option<EdgeKey>,
) -> Map<HalfEdgeKey, HalfEdge> {
    hs.insert(h, HalfEdge { edge: e, ..hs[h] })
}

/// `hs` with the loop of half-edge `h` set to `l`.
pub open spec fn with_he_loop(
    hs: Map<HalfEdgeKey, HalfEdge>,
    h: HalfEdgeKey,
    l: Option<EdgeLoopKey>,
) -> Map<HalfEdgeKey, HalfEdge> {
    hs.insert(h, HalfEdge { edge_loop: l, ..hs[h] })
}

/// `hs` with the neighbors of half-edge `h` set to `n`.
pub open spec fn with_he_neighbors(
    hs: Map<HalfEdgeKey, HalfEdge>,
    h: HalfEdgeKey,
    n: HalfEdgeNeighbors,
) -> Map<HalfEdgeKey, HalfEdge> {
    hs.insert(h, HalfEdge { neighbors: Some(n), ..hs[h] })
}

/// `ls` with the face of every loop listed in `keys` set to `f`.
pub open spec fn with_loops_face(
    ls: Map<EdgeLoopKey, EdgeLoop>,
    keys: Seq<EdgeLoopKey>,
    f: Option<FaceKey>,
) -> Map<EdgeLoopKey, EdgeLoop> {
    Map::new(
        |l: EdgeLoopKey| ls.dom().contains(l),
        |l: EdgeLoopKey|
            if keys.contains(l) {
                EdgeLoop { face: f, ..ls[l] }
            } else {
                ls[l]
            },
    )
}

/// `hs` after half-edge `he` is linked in just before `target`, taking the
/// loop of `target`: the half-edge that came before `target` now leads to
/// `he`, and `he` leads to `target`.
pub open spec fn linked_before(
    hs: Map<HalfEdgeKey, HalfEdge>,
    he: HalfEdgeKey,
    target: HalfEdgeKey,
) -> Map<HalfEdgeKey, HalfEdge> {
    let p = hs[target].prev_key();
    Map::new(
        |k: HalfEdgeKey| hs.dom().contains(k),
        |k: HalfEdgeKey|
            if k == he {
                HalfEdge {
                    neighbors: Some(HalfEdgeNeighbors { next: target, prev: p }),
                    edge_loop: hs[target].edge_loop,
                    ..hs[he]
                }
            } else if k == target {
                HalfEdge {
                    neighbors: Some(
                        HalfEdgeNeighbors {
                            next: if p == target {
                                he
                            } else {
                                hs[target].next_key()
                            },
                            prev: he,
                        },
                    ),
                    ..hs[k]
                }
            } else if k == p {
                HalfEdge {
                    neighbors: Some(HalfEdgeNeighbors { next: he, prev: hs[k].prev_key() }),
                    ..hs[k]
                }
            } else {
                hs[k]
            },
    )
}

/// `hs` after half-edge `he` is linked in just after `target`, taking the
/// loop of `target`: `target` now leads to `he`, and `he` leads to the
/// half-edge that came after `target`.
pub open spec fn linked_after(
    hs: Map<HalfEdgeKey, HalfEdge>,
    he: HalfEdgeKey,
    target: HalfEdgeKey,
) -> Map<HalfEdgeKey, HalfEdge> {
    let n = hs[target].next_key();
    Map::new(
        |k: HalfEdgeKey| hs.dom().contains(k),
        |k: HalfEdgeKey|
            if k == he {
                HalfEdge {
                    neighbors: Some(HalfEdgeNeighbors { next: n, prev: target }),
                    edge_loop: hs[target].edge_loop,
                    ..hs[he]
                }
            } else if k == target {
                HalfEdge {
                    neighbors: Some(
                        HalfEdgeNeighbors {
                            next: he,
                            prev: if n == target {
                                he
                            } else {
                                hs[target].prev_key()
                            },
                        },
                    ),
                    ..hs[k]
                }
            } else if k == n {
                HalfEdge {
                    neighbors: Some(HalfEdgeNeighbors { next: hs[k].next_key(), prev: he }),
                    ..hs[k]
                }
            } else {
                hs[k]
            },
    )
}

/// The loops that bound a face: its outer loop, then its inner loops.
pub open spec fn face_loops(f: Face) -> Seq<EdgeLoopKey> {
    seq![f.outer].add(f.inner@)
}

impl SolidView {
    /// The view of a solid that holds nothing.
    pub open spec fn empty() -> SolidView {
        SolidView {
            vertices: Map::empty(),
            half_edges: Map::empty(),
            edges: Map::empty(),
            edge_loops: Map::empty(),
            faces: Map::empty(),
        }
    }

    /// The next half-edge of `h`.
    pub open spec fn next(self, h: HalfEdgeKey) -> HalfEdgeKey {
        self.half_edges[h].next_key()
    }

    /// The previous half-edge of `h`.
    pub open spec fn prev(self, h: HalfEdgeKey) -> HalfEdgeKey {
        self.half_edges[h].prev_key()
    }

    /// Whether `h` is present and linked.
    pub open spec fn linked(self, h: HalfEdgeKey) -> bool {
        self.half_edges.dom().contains(h) && self.half_edges[h].neighbors is Some
    }

    /// Whether the half-edge of loop `l` is linked to itself alone.
    pub open spec fn loop_is_empty(self, l: EdgeLoopKey) -> bool {
        self.next(self.edge_loops[l].half_edge) == self.edge_loops[l].half_edge
    }

    /// The twin of `h`: the other half-edge of its edge.
    pub open spec fn twin(self, h: HalfEdgeKey) -> HalfEdgeKey {
        self.edges[self.half_edges[h].edge->Some_0].twin_of(h)
    }

    /// Whether `h` has a twin: it belongs to an edge that is present and
    /// that has `h` as one of its two half-edges.
    pub open spec fn has_twin(self, h: HalfEdgeKey) -> bool {
        &&& self.half_edges.dom().contains(h)
        &&& self.half_edges[h].edge is Some
        &&& self.edges.dom().contains(self.half_edges[h].edge->Some_0)
        &&& (self.edges[self.half_edges[h].edge->Some_0].pos == h
            || self.edges[self.half_edges[h].edge->Some_0].neg == h)
    }

    /// The half-edge reached from `h` by `n` steps along `next`.
    pub open spec fn walk(self, h: HalfEdgeKey, n: nat) -> HalfEdgeKey
        decreases n,
    {
        if n == 0 {
            h
        } else {
            self.next(self.walk(h, (n - 1) as nat))
        }
    }

    /// The half-edge reached from `h` by `n` turns around its vertex, each
    /// turn going to the twin and then to the twin's next half-edge.
    pub open spec fn rotate(self, h: HalfEdgeKey, n: nat) -> HalfEdgeKey
        decreases n,
    {
        if n == 0 {
            h
        } else {
            self.next(self.twin(self.rotate(h, (n - 1) as nat)))
        }
    }

    /// Walking along `next` from `start` reaches `end` first after `n` steps,
    /// through present, linked half-edges.
    pub open spec fn walk_reaches(self, start: HalfEdgeKey, end: HalfEdgeKey, n: nat) -> bool {
        &&& self.walk(start, n) == end
        &&& forall|i: nat| i < n ==> #[trigger] self.walk(start, i) != end
        &&& forall|i: nat| i < n ==> self.linked(#[trigger] self.walk(start, i))
    }

    /// Every element kind is held in finitely many copies.
    pub open spec fn is_finite(self) -> bool {
        &&& self.vertices.dom().finite()
        &&& self.half_edges.dom().finite()
        &&& self.edges.dom().finite()
        &&& self.edge_loops.dom().finite()
        &&& self.faces.dom().finite()
    }

    /// Half-edge `h` is linked into a cycle: its next and previous
    /// half-edges are present, and `next` and `prev` undo each other at `h`.
    pub open spec fn he_links_ok(self, h: HalfEdgeKey) -> bool {
        &&& self.half_edges[h].neighbors is Some
        &&& self.half_edges.dom().contains(self.next(h))
        &&& self.half_edges.dom().contains(self.prev(h))
        &&& self.prev(self.next(h)) == h
        &&& self.next(self.prev(h)) == h
    }

    /// Half-edge `h` agrees with what it names: it starts at a present
    /// vertex; the edge it names, if any, is present and has `h` as one of
    /// its two half-edges; the loop it names, if any, is present and is also
    /// the loop of its next half-edge.
    pub open spec fn he_refs_ok(self, h: HalfEdgeKey) -> bool {
        &&& self.vertices.dom().contains(self.half_edges[h].vertex)
        &&& self.half_edges[h].edge is Some ==> self.has_twin(h)
        &&& self.half_edges[h].edge_loop is Some ==> self.edge_loops.dom().contains(
            self.half_edges[h].edge_loop->Some_0,
        )
        &&& self.half_edges[self.next(h)].edge_loop == self.half_edges[h].edge_loop
    }

    /// The half-edge of vertex `v`, if any, is present and starts at `v`.
    pub open spec fn vertex_ok(self, v: VertexKey) -> bool {
        self.vertices[v].half_edge is Some ==> {
            &&& self.half_edges.dom().contains(self.vertices[v].half_edge->Some_0)
            &&& self.half_edges[self.vertices[v].half_edge->Some_0].vertex == v
        }
    }

    /// Edge `e` has two different present half-edges that name it.
    pub open spec fn edge_ok(self, e: EdgeKey) -> bool {
        &&& self.half_edges.dom().contains(self.edges[e].pos)
        &&& self.half_edges.dom().contains(self.edges[e].neg)
        &&& self.edges[e].pos != self.edges[e].neg
        &&& self.half_edges[self.edges[e].pos].edge == Some(e)
        &&& self.half_edges[self.edges[e].neg].edge == Some(e)
    }

    /// The half-edge of loop `l` is present and names `l`; the face of `l`,
    /// if any, is present and has `l` among its loops.
    pub open spec fn loop_ok(self, l: EdgeLoopKey) -> bool {
        &&& self.half_edges.dom().contains(self.edge_loops[l].half_edge)
        &&& self.half_edges[self.edge_loops[l].half_edge].edge_loop == Some(l)
        &&& self.edge_loops[l].face is Some ==> {
            &&& self.faces.dom().contains(self.edge_loops[l].face->Some_0)
            &&& face_loops(self.faces[self.edge_loops[l].face->Some_0]).contains(l)
        }
    }

    /// Every loop of face `f` is present and names `f`.
    pub open spec fn face_ok(self, f: FaceKey) -> bool {
        forall|i: int|
            0 <= i < face_loops(self.faces[f]).len() ==> {
                &&& self.edge_loops.dom().contains(#[trigger] face_loops(self.faces[f])[i])
                &&& self.edge_loops[face_loops(self.faces[f])[i]].face == Some(f)
            }
    }

    /// The solid is a well-formed half-edge structure: every reference
    /// between its elements is to a present element and is answered by the
    /// reference back, every half-edge is linked into a cycle of one loop,
    /// and every loop is a connected boundary.
    pub open spec fn is_valid(self) -> bool {
        &&& self.is_finite()
        &&& forall|h: HalfEdgeKey|
            self.half_edges.dom().contains(h) ==> #[trigger] self.he_links_ok(h)
        &&& forall|h: HalfEdgeKey|
            self.half_edges.dom().contains(h) ==> #[trigger] self.he_refs_ok(h)
        &&& forall|v: VertexKey| self.vertices.dom().contains(v) ==> #[trigger] self.vertex_ok(v)
        &&& forall|e: EdgeKey| self.edges.dom().contains(e) ==> #[trigger] self.edge_ok(e)
        &&& forall|l: EdgeLoopKey|
            self.edge_loops.dom().contains(l) ==> #[trigger] self.loop_ok(l)
        &&& forall|f: FaceKey| self.faces.dom().contains(f) ==> #[trigger] self.face_ok(f)
        &&& self.loops_connected()
    }

    /// Half-edge `h`, when it belongs to an edge, ends where its twin
    /// starts: the twin starts at the vertex of the half-edge after `h`.
    pub open spec fn meets_twin(self, h: HalfEdgeKey) -> bool {
        self.half_edges[h].edge is Some ==> self.half_edges[self.twin(h)].vertex
            == self.half_edges[self.next(h)].vertex
    }

    /// The two half-edges of every edge run between the same two vertices,
    /// in opposite directions.
    pub open spec fn is_consistent(self) -> bool {
        forall|h: HalfEdgeKey| self.half_edges.dom().contains(h) ==> #[trigger] self.meets_twin(h)
    }

    /// Half-edge `h`, when it names a loop, is met walking from the half-edge
    /// of that loop.
    pub open spec fn on_its_loop(self, h: HalfEdgeKey) -> bool {
        self.half_edges[h].edge_loop is Some ==> exists|i: nat|
            #[trigger] self.walk(self.edge_loops[self.half_edges[h].edge_loop->Some_0].half_edge, i)
                == h
    }

    /// Every loop is a connected boundary: each half-edge that names a loop
    /// lies on the cycle through that loop's half-edge.
    pub open spec fn loops_connected(self) -> bool {
        forall|h: HalfEdgeKey| self.half_edges.dom().contains(h) ==> #[trigger] self.on_its_loop(h)
    }

    /// The Euler characteristic of the solid counted with its loops:
    /// vertices − edges + faces − rings, where the rings are the loops beyond
    /// one per face (so: vertices − edges + 2·faces − loops).
    pub open spec fn euler_count(self) -> int {
        self.vertices.len() - self.edges.len() + 2 * self.faces.len() - self.edge_loops.len()
    }

    /// Whether `k` is among the first `n` half-edges met walking from `start`.
    pub open spec fn walk_visits(self, start: HalfEdgeKey, k: HalfEdgeKey, n: nat) -> bool {
        exists|i: nat| i < n && #[trigger] self.walk(start, i) == k
    }

    /// Whether `k` is among the first `n` half-edges met turning around the
    /// vertex from `start`.
    pub open spec fn rotate_visits(self, start: HalfEdgeKey, k: HalfEdgeKey, n: nat) -> bool {
        exists|i: nat| i < n && #[trigger] self.rotate(start, i) == k
    }

    /// Turning around the vertex from `start` reaches `end` first after `n`
    /// turns, through half-edges that have twins, the twins being linked.
    pub open spec fn rotate_reaches(self, start: HalfEdgeKey, end: HalfEdgeKey, n: nat) -> bool {
        &&& self.rotate(start, n) == end
        &&& forall|i: nat| i < n ==> #[trigger] self.rotate(start, i) != end
        &&& forall|i: nat|
            i < n ==> {
                &&& self.has_twin(#[trigger] self.rotate(start, i))
                &&& self.linked(self.twin(self.rotate(start, i)))
            }
    }
}

/// A solid that holds nothing is valid and consistent.
pub proof fn lemma_empty_is_valid()
    ensures
        SolidView::empty().is_valid(),
        SolidView::empty().is_consistent(),
        SolidView::empty().loops_connected(),
{
    let s = SolidView::empty();
    assert(s.is_finite());
}

/// Walking `a + b` steps is walking `a` steps, then `b` steps.
pub proof fn lemma_walk_add(s: SolidView, h: HalfEdgeKey, a: nat, b: nat)
    ensures
        s.walk(h, a + b) == s.walk(s.walk(h, a), b),
    decreases b,
{
    if b > 0 {
        lemma_walk_add(s, h, a, (b - 1) as nat);
        assert(s.walk(h, a + b) == s.next(s.walk(h, (a + b - 1) as nat)));
    }
}

/// Pairwise different half-edges met walking from `x` number no more than
/// the half-edges of a valid solid.
proof fn lemma_walk_distinct_bounded(s: SolidView, x: HalfEdgeKey, n: nat)
    requires
        s.is_valid(),
        s.half_edges.dom().contains(x),
        forall|a: nat, b: nat| a < b < n ==> s.walk(x, a) != s.walk(x, b),
    ensures
        n <= s.half_edges.len(),
{
    let sq = Seq::new(n, |j: int| s.walk(x, j as nat));
    assert(sq.no_duplicates()) by {
        assert forall|a: int, b: int| 0 <= a < sq.len() && 0 <= b < sq.len() && a != b implies sq[a]
            != sq[b] by {
            if a < b {
                assert(s.walk(x, a as nat) != s.walk(x, b as nat));
            } else {
                assert(s.walk(x, b as nat) != s.walk(x, a as nat));
            }
        }
    }
    sq.unique_seq_to_set();
    assert(sq.to_set().subset_of(s.half_edges.dom())) by {
        assert forall|k: HalfEdgeKey| sq.to_set().contains(k) implies s.half_edges.dom().contains(
            k,
        ) by {
            let j = choose|j: int| 0 <= j < sq.len() && sq[j] == k;
            lemma_walk_in_loop(s, x, j as nat);
        }
    }
    vstd::set_lib::lemma_len_subset(sq.to_set(), s.half_edges.dom());
}

/// In a valid solid, when the walk from `x` meets the same half-edge after
/// `a` and after `b` steps, it comes back to `x` after `b - a` steps.
proof fn lemma_walk_cancel(s: SolidView, x: HalfEdgeKey, a: nat, b: nat)
    requires
        s.is_valid(),
        s.half_edges.dom().contains(x),
        a <= b,
        s.walk(x, a) == s.walk(x, b),
    ensures
        s.walk(x, (b - a) as nat) == x,
    decreases a,
{
    if a > 0 {
        lemma_walk_prev(s, x, a);
        lemma_walk_prev(s, x, b);
        lemma_walk_cancel(s, x, (a - 1) as nat, (b - 1) as nat);
    }
}

/// In a valid solid, walking from a half-edge comes back to it.
pub proof fn lemma_walk_returns(s: SolidView, x: HalfEdgeKey)
    requires
        s.is_valid(),
        s.half_edges.dom().contains(x),
    ensures
        exists|p: nat| 0 < p && #[trigger] s.walk(x, p) == x,
{
    let big = s.half_edges.len() + 1;
    if forall|a: nat, b: nat| a < b < big ==> s.walk(x, a) != s.walk(x, b) {
        lemma_walk_distinct_bounded(s, x, big);
    }
    let (a, b) = choose|a: nat, b: nat| a < b < big && s.walk(x, a) == s.walk(x, b);
    lemma_walk_cancel(s, x, a, b);
    let p = (b - a) as nat;
    assert(0 < p && s.walk(x, p) == x);
}

/// Once the walk from `x` comes back to `x` after `p` steps, every
/// half-edge it meets is among the first `p`.
proof fn lemma_walk_periodic(s: SolidView, x: HalfEdgeKey, p: nat, n: nat)
    requires
        p > 0,
        s.walk(x, p) == x,
    ensures
        exists|j: nat| j < p && s.walk(x, n) == #[trigger] s.walk(x, j),
    decreases n,
{
    if n < p {
        lemma_walk_add(s, x, n, 0);
    } else {
        let m = (n - p) as nat;
        lemma_walk_add(s, x, p, m);
        assert(p + m == n);
        lemma_walk_periodic(s, x, p, m);
        let j = choose|j: nat| j < p && s.walk(x, m) == #[trigger] s.walk(x, j);
        assert(j < p && s.walk(x, n) == s.walk(x, j));
    }
}

/// In a valid solid, the walk from any half-edge met walking from `x` leads
/// back to `x`.
pub proof fn lemma_walk_back(s: SolidView, x: HalfEdgeKey, i: nat)
    requires
        s.is_valid(),
        s.half_edges.dom().contains(x),
    ensures
        exists|j: nat| #[trigger] s.walk(s.walk(x, i), j) == x,
{
    lemma_walk_returns(s, x);
    let p = choose|p: nat| 0 < p && #[trigger] s.walk(x, p) == x;
    lemma_walk_periodic(s, x, p, i);
    let j = choose|j: nat| j < p && s.walk(x, i) == #[trigger] s.walk(x, j);
    lemma_walk_add(s, x, j, (p - j) as nat);
    assert(s.walk(s.walk(x, i), (p - j) as nat) == x);
}

/// In a valid solid, a half-edge met walking from `x` is met a first time.
pub proof fn lemma_first_reach(s: SolidView, x: HalfEdgeKey, y: HalfEdgeKey, i: nat)
    requires
        s.is_valid(),
        s.half_edges.dom().contains(x),
        s.walk(x, i) == y,
    ensures
        exists|d: nat| d <= i && #[trigger] s.walk_reaches(x, y, d),
    decreases i,
{
    if exists|j: nat| j < i && #[trigger] s.walk(x, j) == y {
        let j = choose|j: nat| j < i && #[trigger] s.walk(x, j) == y;
        lemma_first_reach(s, x, y, j);
        let d = choose|d: nat| d <= j && #[trigger] s.walk_reaches(x, y, d);
        assert(d <= i && s.walk_reaches(x, y, d));
    } else {
        assert forall|j: nat| j < i implies s.linked(#[trigger] s.walk(x, j)) by {
            lemma_walk_in_loop(s, x, j);
            assert(s.he_links_ok(s.walk(x, j)));
        }
        assert(s.walk_reaches(x, y, i));
    }
}

/// Walks along `next` in two views agree as long as the half-edges walked
/// through have the same next half-edge in both.
pub proof fn lemma_walk_same_next(a: SolidView, b: SolidView, start: HalfEdgeKey, n: nat)
    requires
        forall|i: nat| i < n ==> #[trigger] b.next(a.walk(start, i)) == a.next(a.walk(start, i)),
    ensures
        forall|i: nat| i <= n ==> #[trigger] b.walk(start, i) == a.walk(start, i),
    decreases n,
{
    if n > 0 {
        lemma_walk_same_next(a, b, start, (n - 1) as nat);
        assert forall|i: nat| i <= n implies #[trigger] b.walk(start, i) == a.walk(start, i) by {
            if i == n {
                assert(b.walk(start, (n - 1) as nat) == a.walk(start, (n - 1) as nat));
                assert(b.next(a.walk(start, (n - 1) as nat)) == a.next(a.walk(start, (n - 1) as nat)));
            }
        }
    }
}

/// In a valid solid, the twin of a half-edge of an edge is another present
/// half-edge of that edge, whose twin is the first.
pub proof fn lemma_twin_twin(s: SolidView, h: HalfEdgeKey)
    requires
        s.is_valid(),
        s.half_edges.dom().contains(h),
        s.half_edges[h].edge is Some,
    ensures
        s.half_edges.dom().contains(s.twin(h)),
        s.twin(h) != h,
        s.half_edges[s.twin(h)].edge == s.half_edges[h].edge,
        s.twin(s.twin(h)) == h,
        s.has_twin(h),
        s.has_twin(s.twin(h)),
{
    assert(s.he_refs_ok(h));
    assert(s.edge_ok(s.half_edges[h].edge->Some_0));
}

/// In a valid solid, different present half-edges have different next
/// half-edges.
pub proof fn lemma_next_injective(s: SolidView, a: HalfEdgeKey, b: HalfEdgeKey)
    requires
        s.is_valid(),
        s.half_edges.dom().contains(a),
        s.half_edges.dom().contains(b),
        s.next(a) == s.next(b),
    ensures
        a == b,
{
    assert(s.he_links_ok(a));
    assert(s.he_links_ok(b));
}

/// In a valid solid, linking a half-edge that is alone in its cycle in
/// just before `target` gives the same half-edges as linking it in just
/// after the half-edge before `target`; when it is `target` itself, both
/// leave the half-edges as they were.
pub proof fn lemma_linked_before_is_linked_after_prev(s: SolidView, he: HalfEdgeKey, target: HalfEdgeKey)
    requires
        s.is_valid(),
        s.half_edges.dom().contains(he),
        s.half_edges.dom().contains(target),
        s.next(he) == he,
    ensures
        linked_before(s.half_edges, he, target) == linked_after(s.half_edges, he, s.prev(target)),
        he == target ==> linked_before(s.half_edges, he, target) == s.half_edges,
{
    let p = s.prev(target);
    assert(s.he_links_ok(he));
    assert(s.he_links_ok(target));
    assert(s.he_links_ok(p));
    assert(s.he_refs_ok(p));
    assert(linked_before(s.half_edges, he, target) =~= linked_after(s.half_edges, he, p));
    if he == target {
        assert(linked_before(s.half_edges, he, target) =~= s.half_edges);
    }
}

/// A walk that first reaches `end` after `m` steps does not come back to its
/// start on the way.
pub proof fn lemma_walk_no_return(s: SolidView, start: HalfEdgeKey, end: HalfEdgeKey, m: nat, i: nat)
    requires
        s.walk_reaches(start, end, m),
        start != end,
        0 < i <= m,
    ensures
        s.walk(start, i) != start,
{
    if s.walk(start, i) == start {
        lemma_walk_add(s, start, i, (m - i) as nat);
        assert(s.walk(start, (m - i) as nat) != end);
    }
}

/// In a valid solid, the half-edge walked to just before `walk(start, j)`
/// is its previous half-edge.
pub proof fn lemma_walk_prev(s: SolidView, start: HalfEdgeKey, j: nat)
    requires
        s.is_valid(),
        s.half_edges.dom().contains(start),
        j > 0,
    ensures
        s.half_edges.dom().contains(s.walk(start, (j - 1) as nat)),
        s.prev(s.walk(start, j)) == s.walk(start, (j - 1) as nat),
    decreases j,
{
    if j > 1 {
        lemma_walk_prev(s, start, (j - 1) as nat);
        let w2 = s.walk(start, (j - 2) as nat);
        assert(s.he_links_ok(w2));
    }
    let w = s.walk(start, (j - 1) as nat);
    assert(s.he_links_ok(w));
}

/// In a valid solid, a walk stays among present half-edges, all in the loop
/// of its start.
pub proof fn lemma_walk_in_loop(s: SolidView, start: HalfEdgeKey, i: nat)
    requires
        s.is_valid(),
        s.half_edges.dom().contains(start),
    ensures
        s.half_edges.dom().contains(s.walk(start, i)),
        s.half_edges[s.walk(start, i)].edge_loop == s.half_edges[start].edge_loop,
    decreases i,
{
    if i > 0 {
        lemma_walk_in_loop(s, start, (i - 1) as nat);
        let w = s.walk(start, (i - 1) as nat);
        assert(s.he_links_ok(w));
        assert(s.he_refs_ok(w));
    }
}

/// Walks along `next` in two views agree as long as the half-edges walked
/// through have the same neighbors in both.
pub proof fn lemma_walk_same_links(a: SolidView, b: SolidView, start: HalfEdgeKey, n: nat)
    requires
        forall|i: nat|
            i < n ==> (#[trigger] b.half_edges[a.walk(start, i)]).neighbors == a.half_edges[a.walk(
                start,
                i,
            )].neighbors,
    ensures
        forall|i: nat| i <= n ==> #[trigger] b.walk(start, i) == a.walk(start, i),
    decreases n,
{
    if n > 0 {
        lemma_walk_same_links(a, b, start, (n - 1) as nat);
        assert forall|i: nat| i <= n implies #[trigger] b.walk(start, i) == a.walk(start, i) by {
            if i == n {
                assert(b.walk(start, (n - 1) as nat) == a.walk(start, (n - 1) as nat));
                assert(b.half_edges[a.walk(start, (n - 1) as nat)].neighbors
                    == a.half_edges[a.walk(start, (n - 1) as nat)].neighbors);
            }
        }
    }
}

} // verus!
