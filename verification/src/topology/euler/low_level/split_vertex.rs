//! Splitting a vertex in two, joined by a new edge.

use vstd::prelude::*;

use super::super::super::solid::edge::{Edge, EdgeKey};
use super::super::super::solid::edge_loop::EdgeLoopKey;
use super::super::super::solid::face::FaceKey;
use super::super::super::solid::half_edge::{HalfEdge, HalfEdgeKey, HalfEdgeNeighbors};
use super::super::super::solid::vertex::{Vertex, VertexKey};
use super::super::super::view::{
    lemma_next_injective, lemma_twin_twin, lemma_walk_add, lemma_walk_in_loop, linked_before,
    with_he_edge, SolidView,
};
use super::super::super::{Solid, Topology, TopologyRead, TopologyWrite, SLOT_CAPACITY};
use crate::geometry::point::Point;

verus! {

/// Errors for the `split_vertex` operation
#[derive(Clone, Copy, PartialEq, Eq, Structural, Debug)]
pub enum SplitVtxErr {
    WedgeOriginMismatch,
    BrokenWedgeCycle,
    HalfEdgeMissingTwin,
}

impl SplitVtxErr {
    /// The message that describes this error.
    pub fn message(&self) -> (m: &'static str)
        ensures
            *self == SplitVtxErr::WedgeOriginMismatch ==> m@
                == "anchor does not belong to wedge_start or wedge_end"@,
            *self == SplitVtxErr::BrokenWedgeCycle ==> m@
                == "detected a cycle that starts and ends at wedge_start and does not go through wedge_end"@,
            *self == SplitVtxErr::HalfEdgeMissingTwin ==> m@
                == "half-edge in [wedge_start, wedge_end) has no twin"@,
    {
        match self {
            SplitVtxErr::WedgeOriginMismatch => "anchor does not belong to wedge_start or wedge_end",
            SplitVtxErr::BrokenWedgeCycle => "detected a cycle that starts and ends at wedge_start and does not go through wedge_end",
            SplitVtxErr::HalfEdgeMissingTwin => "half-edge in [wedge_start, wedge_end) has no twin",
        }
    }
}

/// Errors for the `dissolve_vertex` operation
#[derive(Clone, Copy, PartialEq, Eq, Structural, Debug)]
pub enum DissolveVtxErr {
    AnchorIsTarget,
    AnchorTargetNoEdge,
}

/// The keys of what `split_vertex` created: the new edge and the new vertex.
#[derive(Clone, Copy, PartialEq, Eq, Structural, Debug)]
pub struct SubdivideVtxRes {
    pub edge: EdgeKey,
    pub vertex: VertexKey,
}

/// The keys of what `split_vertex` created, under its earlier name.
pub type ExtendVertexRes = SubdivideVtxRes;

impl SolidView {
    /// `hs` with the vertex of each of the first `n` half-edges met turning
    /// around the vertex from `start` set to `v`.
    pub open spec fn with_vertex_along(
        self,
        hs: Map<HalfEdgeKey, HalfEdge>,
        start: HalfEdgeKey,
        n: nat,
        v: VertexKey,
    ) -> Map<HalfEdgeKey, HalfEdge> {
        Map::new(
            |k: HalfEdgeKey| hs.dom().contains(k),
            |k: HalfEdgeKey|
                if self.rotate_visits(start, k, n) {
                    HalfEdge { vertex: v, ..hs[k] }
                } else {
                    hs[k]
                },
        )
    }

    /// Whether `after` is `self` after `split_vertex(anchor, wedge_start,
    /// wedge_end, coord)` returned `res`.
    ///
    /// The half-edges met turning around `anchor` from `wedge_start` up to
    /// before `wedge_end` move to the new vertex `res.vertex` at `coord`.
    /// The new edge `res.edge` has a positive half-edge from the new vertex,
    /// linked in just before `wedge_end`, and a negative half-edge from
    /// `anchor`, linked in just before `wedge_start`; when `wedge_start` has
    /// no neighbors, it is itself that negative half-edge.
    pub open spec fn splits_vertex(
        self,
        after: SolidView,
        anchor: VertexKey,
        wedge_start: HalfEdgeKey,
        wedge_end: HalfEdgeKey,
        coord: Point,
        res: SubdivideVtxRes,
    ) -> bool {
        let n = choose|n: nat| self.rotate_reaches(wedge_start, wedge_end, n);
        let hno = after.edges[res.edge].pos;
        let hon = after.edges[res.edge].neg;
        let new_v = res.vertex;
        let empty = self.next(wedge_start) == wedge_start;
        let moved = self.with_vertex_along(self.half_edges, wedge_start, n, new_v);
        let fresh_he = |v: VertexKey, k: HalfEdgeKey|
            HalfEdge {
                vertex: v,
                neighbors: Some(HalfEdgeNeighbors { next: k, prev: k }),
                edge: None,
                edge_loop: None,
            };
        &&& !self.vertices.dom().contains(new_v)
        &&& !self.half_edges.dom().contains(hno)
        &&& !self.edges.dom().contains(res.edge)
        &&& after.edges == self.edges.insert(res.edge, Edge { pos: hno, neg: hon })
        &&& after.edge_loops == self.edge_loops
        &&& after.faces == self.faces
        &&& if empty {
            &&& hon == wedge_start
            &&& after.vertices == self.vertices.insert(
                new_v,
                Vertex { coord, half_edge: Some(hno) },
            )
            &&& after.half_edges == with_he_edge(
                with_he_edge(
                    linked_before(moved.insert(hno, fresh_he(new_v, hno)), hno, wedge_end),
                    hno,
                    Some(res.edge),
                ),
                hon,
                Some(res.edge),
            )
        } else {
            &&& !self.half_edges.dom().contains(hon)
            &&& hon != hno
            &&& after.vertices == self.vertices.insert(
                anchor,
                Vertex { half_edge: Some(hon), ..self.vertices[anchor] },
            ).insert(new_v, Vertex { coord, half_edge: Some(hno) })
            &&& after.half_edges == with_he_edge(
                with_he_edge(
                    linked_before(
                        linked_before(
                            moved.insert(hon, fresh_he(anchor, hon)).insert(
                                hno,
                                fresh_he(new_v, hno),
                            ),
                            hon,
                            wedge_start,
                        ),
                        hno,
                        wedge_end,
                    ),
                    hno,
                    Some(res.edge),
                ),
                hon,
                Some(res.edge),
            )
        }
    }
}

impl SolidView {
    /// Every half-edge met turning from `start` up to before `end` starts at
    /// vertex `v`.
    pub open spec fn wedge_around(self, start: HalfEdgeKey, end: HalfEdgeKey, v: VertexKey) -> bool {
        let n = choose|n: nat| self.rotate_reaches(start, end, n);
        forall|j: nat| j < n ==> self.half_edges[#[trigger] self.rotate(start, j)].vertex == v
    }

    /// Turning around the vertex from `start`, the first `i` half-edges met
    /// each have a twin, none is `end`, and none after the first is `start`.
    pub open spec fn rotate_clear(self, start: HalfEdgeKey, end: HalfEdgeKey, i: nat) -> bool {
        forall|j: nat|
            j < i ==> {
                &&& self.has_twin(#[trigger] self.rotate(start, j))
                &&& self.rotate(start, j) != end
                &&& (j > 0 ==> self.rotate(start, j) != start)
            }
    }

    /// Turning around the vertex from `start` comes back to `start` before
    /// meeting `end` or a half-edge without a twin.
    pub open spec fn rotate_returns(self, start: HalfEdgeKey, end: HalfEdgeKey) -> bool {
        exists|i: nat|
            0 < i && self.rotate_clear(start, end, i) && #[trigger] self.rotate(start, i) == start
                && start != end
    }

    /// Turning around the vertex from `start` meets a half-edge without a
    /// twin before meeting `end` or coming back to `start`.
    pub open spec fn rotate_misses_twin(self, start: HalfEdgeKey, end: HalfEdgeKey) -> bool {
        exists|i: nat|
            self.rotate_clear(start, end, i) && #[trigger] self.rotate(start, i) != end && (i > 0
                ==> self.rotate(start, i) != start) && self.half_edges[self.rotate(
                start,
                i,
            )].edge is None
    }
}

/// Splitting the vertex of a lone half-edge, linked only to itself (as in a
/// skeletal primitive), at that half-edge makes a strut edge: each of its
/// half-edges leads to the other, both ways.
pub proof fn lemma_split_lone_vertex_makes_strut(
    before: SolidView,
    after: SolidView,
    h: HalfEdgeKey,
    coord: Point,
    res: SubdivideVtxRes,
)
    requires
        before.linked(h),
        before.next(h) == h,
        before.prev(h) == h,
        before.splits_vertex(after, before.half_edges[h].vertex, h, h, coord, res),
    ensures
        after.next(after.edges[res.edge].pos) == after.edges[res.edge].neg,
        after.prev(after.edges[res.edge].pos) == after.edges[res.edge].neg,
        after.next(after.edges[res.edge].neg) == after.edges[res.edge].pos,
        after.prev(after.edges[res.edge].neg) == after.edges[res.edge].pos,
{
    assert(before.rotate(h, 0) == h);
    assert(before.rotate_reaches(h, h, 0));
    let n = choose|n: nat| before.rotate_reaches(h, h, n);
    if n > 0 {
        assert(before.rotate(h, 0) != h);
    }
    assert(n == 0);
    let moved = before.with_vertex_along(before.half_edges, h, n, res.vertex);
    assert(moved =~= before.half_edges);
}

/// Facts about the half-edges that `split_vertex` touches in a valid solid.
proof fn lemma_split_vertex_setting(
    before: SolidView,
    after: SolidView,
    anchor: VertexKey,
    wedge_start: HalfEdgeKey,
    wedge_end: HalfEdgeKey,
    coord: Point,
    res: SubdivideVtxRes,
)
    requires
        before.is_valid(),
        before.half_edges.dom().contains(wedge_start),
        before.half_edges.dom().contains(wedge_end),
        before.half_edges[wedge_start].vertex == anchor,
        exists|n: nat| before.rotate_reaches(wedge_start, wedge_end, n),
        before.wedge_around(wedge_start, wedge_end, anchor),
        before.next(wedge_start) == wedge_start ==> before.half_edges[wedge_start].edge is None,
        before.splits_vertex(after, anchor, wedge_start, wedge_end, coord, res),
    ensures
        ({
            let n = choose|n: nat| before.rotate_reaches(wedge_start, wedge_end, n);
            let ws = wedge_start;
            let we = wedge_end;
            let p = before.prev(ws);
            let q = before.prev(we);
            &&& before.he_links_ok(ws) && before.he_links_ok(we)
            &&& before.he_links_ok(p) && before.he_links_ok(q)
            &&& before.he_refs_ok(ws) && before.he_refs_ok(we)
            &&& before.he_refs_ok(p) && before.he_refs_ok(q)
            &&& before.next(ws) == ws ==> n == 0 && ws == we
            &&& forall|k: HalfEdgeKey| #[trigger]
                before.rotate_visits(ws, k, n) ==> before.half_edges.dom().contains(k)
                    && before.half_edges[k].vertex == anchor
            &&& after.half_edges.dom() == before.half_edges.dom().insert(
                after.edges[res.edge].neg,
            ).insert(after.edges[res.edge].pos)
            &&& after.vertices.dom() == before.vertices.dom().insert(res.vertex)
        }),
{
    let n = choose|n: nat| before.rotate_reaches(wedge_start, wedge_end, n);
    let hno = after.edges[res.edge].pos;
    let hon = after.edges[res.edge].neg;
    let ws = wedge_start;
    let we = wedge_end;
    let p = before.prev(ws);
    let q = before.prev(we);
    assert(before.he_links_ok(ws));
    assert(before.he_links_ok(we));
    assert(before.he_links_ok(p));
    assert(before.he_links_ok(q));
    assert(before.he_refs_ok(ws));
    assert(before.he_refs_ok(we));
    assert(before.he_refs_ok(p));
    assert(before.he_refs_ok(q));
    if before.next(ws) == ws {
        if n > 0 {
            assert(before.has_twin(before.rotate(ws, 0)));
        }
        assert(n == 0);
        assert(ws == we);
    }
    assert forall|k: HalfEdgeKey| #[trigger] before.rotate_visits(ws, k, n) implies before.half_edges.dom().contains(k)
        && before.half_edges[k].vertex == anchor by {
        let j = choose|j: nat| j < n && #[trigger] before.rotate(ws, j) == k;
        assert(before.has_twin(before.rotate(ws, j)));
    }
    assert(after.half_edges.dom() =~= before.half_edges.dom().insert(hon).insert(hno));
    assert(after.vertices.dom() =~= before.vertices.dom().insert(res.vertex));
}

/// After `split_vertex` on a valid solid, every half-edge is linked into a
/// cycle.
proof fn lemma_split_vertex_links(
    before: SolidView,
    after: SolidView,
    anchor: VertexKey,
    wedge_start: HalfEdgeKey,
    wedge_end: HalfEdgeKey,
    coord: Point,
    res: SubdivideVtxRes,
)
    requires
        before.is_valid(),
        before.half_edges.dom().contains(wedge_start),
        before.half_edges.dom().contains(wedge_end),
        before.half_edges[wedge_start].vertex == anchor,
        exists|n: nat| before.rotate_reaches(wedge_start, wedge_end, n),
        before.wedge_around(wedge_start, wedge_end, anchor),
        before.next(wedge_start) == wedge_start ==> before.half_edges[wedge_start].edge is None,
        before.splits_vertex(after, anchor, wedge_start, wedge_end, coord, res),
    ensures
        forall|k: HalfEdgeKey| after.half_edges.dom().contains(k) ==> #[trigger] after.he_links_ok(k),
{
    let n = choose|n: nat| before.rotate_reaches(wedge_start, wedge_end, n);
    let hno = after.edges[res.edge].pos;
    let hon = after.edges[res.edge].neg;
    let new_v = res.vertex;
    let ws = wedge_start;
    let we = wedge_end;
    let empty = before.next(ws) == ws;
    let p = before.prev(ws);
    let q = before.prev(we);
    lemma_split_vertex_setting(before, after, anchor, ws, we, coord, res);
    assert forall|k: HalfEdgeKey| after.half_edges.dom().contains(k) implies #[trigger] after.he_links_ok(k) by {
        if k != hno && k != hon {
            assert(before.he_links_ok(k));
        }
    }
}

/// After `split_vertex` on a valid solid, every half-edge agrees with what
/// it names.
proof fn lemma_split_vertex_he_refs(
    before: SolidView,
    after: SolidView,
    anchor: VertexKey,
    wedge_start: HalfEdgeKey,
    wedge_end: HalfEdgeKey,
    coord: Point,
    res: SubdivideVtxRes,
)
    requires
        before.is_valid(),
        before.half_edges.dom().contains(wedge_start),
        before.half_edges.dom().contains(wedge_end),
        before.half_edges[wedge_start].vertex == anchor,
        exists|n: nat| before.rotate_reaches(wedge_start, wedge_end, n),
        before.wedge_around(wedge_start, wedge_end, anchor),
        before.next(wedge_start) == wedge_start ==> before.half_edges[wedge_start].edge is None,
        before.splits_vertex(after, anchor, wedge_start, wedge_end, coord, res),
    ensures
        forall|k: HalfEdgeKey| after.half_edges.dom().contains(k) ==> #[trigger] after.he_refs_ok(k),
{
    let n = choose|n: nat| before.rotate_reaches(wedge_start, wedge_end, n);
    let hno = after.edges[res.edge].pos;
    let hon = after.edges[res.edge].neg;
    let new_v = res.vertex;
    let ws = wedge_start;
    let we = wedge_end;
    let empty = before.next(ws) == ws;
    let p = before.prev(ws);
    let q = before.prev(we);
    lemma_split_vertex_setting(before, after, anchor, ws, we, coord, res);
    assert forall|k: HalfEdgeKey| after.half_edges.dom().contains(k) implies #[trigger] after.he_refs_ok(k) by {
        if k != hno && k != hon {
            assert(before.he_links_ok(k));
            assert(before.he_refs_ok(k));
            if before.half_edges[k].edge is Some {
                assert(before.edge_ok(before.half_edges[k].edge->Some_0));
            }
        }
    }
}

/// Splitting a vertex of a valid solid leaves it valid, when the half-edges
/// of the wedge all start at the anchor, and an empty `wedge_start` belongs
/// to no edge.
pub proof fn lemma_split_vertex_keeps_valid(
    before: SolidView,
    after: SolidView,
    anchor: VertexKey,
    wedge_start: HalfEdgeKey,
    wedge_end: HalfEdgeKey,
    coord: Point,
    res: SubdivideVtxRes,
)
    requires
        before.is_valid(),
        before.half_edges.dom().contains(wedge_start),
        before.half_edges.dom().contains(wedge_end),
        before.half_edges[wedge_start].vertex == anchor,
        exists|n: nat| before.rotate_reaches(wedge_start, wedge_end, n),
        before.wedge_around(wedge_start, wedge_end, anchor),
        before.next(wedge_start) == wedge_start ==> before.half_edges[wedge_start].edge is None,
        before.splits_vertex(after, anchor, wedge_start, wedge_end, coord, res),
    ensures
        after.is_valid(),
{
    lemma_split_vertex_keeps_loops_connected(before, after, anchor, wedge_start, wedge_end, coord, res);
    let n = choose|n: nat| before.rotate_reaches(wedge_start, wedge_end, n);
    let hno = after.edges[res.edge].pos;
    let hon = after.edges[res.edge].neg;
    let new_v = res.vertex;
    let ws = wedge_start;
    let we = wedge_end;
    let empty = before.next(ws) == ws;
    let p = before.prev(ws);
    let q = before.prev(we);
    lemma_split_vertex_setting(before, after, anchor, ws, we, coord, res);
    lemma_split_vertex_links(before, after, anchor, ws, we, coord, res);
    lemma_split_vertex_he_refs(before, after, anchor, ws, we, coord, res);
    assert(after.is_finite());
    assert forall|v: VertexKey| after.vertices.dom().contains(v) implies #[trigger] after.vertex_ok(v) by {
        if v != new_v {
            assert(before.vertex_ok(v));
        }
    }
    assert forall|e: EdgeKey| after.edges.dom().contains(e) implies #[trigger] after.edge_ok(e) by {
        if e != res.edge {
            assert(before.edge_ok(e));
        }
    }
    assert forall|l: EdgeLoopKey| after.edge_loops.dom().contains(l) implies #[trigger] after.loop_ok(l) by {
        assert(before.loop_ok(l));
    }
    assert forall|f: FaceKey| after.faces.dom().contains(f) implies #[trigger] after.face_ok(f) by {
        assert(before.face_ok(f));
    }
}

/// In a valid, consistent solid, turning around the vertex of `start`
/// through half-edges that have twins stays at that vertex.
proof fn lemma_rotate_stays_at_vertex(s: SolidView, start: HalfEdgeKey, j: nat)
    requires
        s.is_valid(),
        s.is_consistent(),
        s.half_edges.dom().contains(start),
        forall|i: nat| i < j ==> s.has_twin(#[trigger] s.rotate(start, i)),
    ensures
        s.half_edges.dom().contains(s.rotate(start, j)),
        s.half_edges[s.rotate(start, j)].vertex == s.half_edges[start].vertex,
    decreases j,
{
    if j > 0 {
        let r = s.rotate(start, (j - 1) as nat);
        lemma_rotate_stays_at_vertex(s, start, (j - 1) as nat);
        assert(s.has_twin(r));
        lemma_twin_twin(s, r);
        let t = s.twin(r);
        assert(s.he_links_ok(t));
        assert(s.meets_twin(t));
    }
}

/// In a valid, consistent solid, the half-edges met turning around a
/// vertex from `start` up to before `end` all start at that vertex.
pub proof fn lemma_consistent_wedge_around(
    s: SolidView,
    start: HalfEdgeKey,
    end: HalfEdgeKey,
)
    requires
        s.is_valid(),
        s.is_consistent(),
        s.half_edges.dom().contains(start),
        exists|n: nat| s.rotate_reaches(start, end, n),
    ensures
        s.wedge_around(start, end, s.half_edges[start].vertex),
{
    let n = choose|n: nat| s.rotate_reaches(start, end, n);
    assert forall|j: nat| j < n implies s.half_edges[#[trigger] s.rotate(start, j)].vertex
        == s.half_edges[start].vertex by {
        lemma_rotate_stays_at_vertex(s, start, j);
    }
}

/// In a valid solid, turning from `start` reaches `end` after `n` turns, and
/// `k` is a half-edge of an edge that leads neither to `start` nor to `end`:
/// then the twin of `k` is met on the way exactly when the half-edge after
/// `k` is.
proof fn lemma_wedge_closed(
    s: SolidView,
    start: HalfEdgeKey,
    end: HalfEdgeKey,
    n: nat,
    k: HalfEdgeKey,
)
    requires
        s.is_valid(),
        s.rotate_reaches(start, end, n),
        s.half_edges.dom().contains(k),
        s.half_edges[k].edge is Some,
        s.next(k) != start,
        s.next(k) != end,
    ensures
        s.rotate_visits(start, s.twin(k), n) == s.rotate_visits(start, s.next(k), n),
{
    lemma_twin_twin(s, k);
    if s.rotate_visits(start, s.twin(k), n) {
        let j = choose|j: nat| j < n && #[trigger] s.rotate(start, j) == s.twin(k);
        assert(s.rotate(start, j + 1) == s.next(k));
        assert(j + 1 != n);
        assert(s.rotate(start, (j + 1) as nat) == s.next(k));
    }
    if s.rotate_visits(start, s.next(k), n) {
        let j = choose|j: nat| j < n && #[trigger] s.rotate(start, j) == s.next(k);
        assert(j != 0);
        let r = s.rotate(start, (j - 1) as nat);
        assert(s.has_twin(r));
        lemma_twin_twin(s, r);
        lemma_next_injective(s, k, s.twin(r));
        assert(s.rotate(start, (j - 1) as nat) == s.twin(k));
    }
}

/// In a valid solid where turning from `start` reaches another half-edge
/// `end` after `n` turns, the twin of the half-edge before `start` is not
/// met on the way.
proof fn lemma_wedge_misses_before_start(
    s: SolidView,
    start: HalfEdgeKey,
    end: HalfEdgeKey,
    n: nat,
)
    requires
        s.is_valid(),
        s.rotate_reaches(start, end, n),
        s.half_edges.dom().contains(start),
        start != end,
    ensures
        s.half_edges[s.prev(start)].edge is Some ==> !s.rotate_visits(
            start,
            s.twin(s.prev(start)),
            n,
        ),
{
    let a = s.prev(start);
    assert(s.he_links_ok(start));
    if s.half_edges[a].edge is Some && s.rotate_visits(start, s.twin(a), n) {
        lemma_twin_twin(s, a);
        let j = choose|j: nat| j < n && #[trigger] s.rotate(start, j) == s.twin(a);
        assert(s.rotate(start, j + 1) == start);
        lemma_rotate_periodic(s, start, j + 1, n);
        let i = choose|i: nat| i < j + 1 && s.rotate(start, n) == #[trigger] s.rotate(start, i);
        assert(s.rotate(start, i) != end);
    }
}

/// In a valid solid where turning from `start` reaches another half-edge
/// `end` after `n` turns, the twin of the half-edge before `end` is the
/// last half-edge met on the way.
proof fn lemma_wedge_ends_before_end(
    s: SolidView,
    start: HalfEdgeKey,
    end: HalfEdgeKey,
    n: nat,
)
    requires
        s.is_valid(),
        s.rotate_reaches(start, end, n),
        s.half_edges.dom().contains(start),
        start != end,
    ensures
        s.half_edges[s.prev(end)].edge is Some,
        s.rotate_visits(start, s.twin(s.prev(end)), n),
{
    assert(n != 0);
    let r = s.rotate(start, (n - 1) as nat);
    assert(s.has_twin(r));
    lemma_twin_twin(s, r);
    let t = s.twin(r);
    assert(s.he_links_ok(t));
    assert(s.next(t) == end);
    assert(s.prev(end) == t);
    assert(s.twin(t) == r);
}

/// Splitting a vertex of a valid, consistent solid leaves it consistent,
/// when an empty `wedge_start` belongs to no edge.
pub proof fn lemma_split_vertex_keeps_consistent(
    before: SolidView,
    after: SolidView,
    anchor: VertexKey,
    wedge_start: HalfEdgeKey,
    wedge_end: HalfEdgeKey,
    coord: Point,
    res: SubdivideVtxRes,
)
    requires
        before.is_valid(),
        before.is_consistent(),
        before.half_edges.dom().contains(wedge_start),
        before.half_edges.dom().contains(wedge_end),
        before.half_edges[wedge_start].vertex == anchor,
        exists|n: nat| before.rotate_reaches(wedge_start, wedge_end, n),
        before.next(wedge_start) == wedge_start ==> before.half_edges[wedge_start].edge is None,
        before.splits_vertex(after, anchor, wedge_start, wedge_end, coord, res),
    ensures
        after.is_consistent(),
{
    let n = choose|n: nat| before.rotate_reaches(wedge_start, wedge_end, n);
    let hno = after.edges[res.edge].pos;
    let hon = after.edges[res.edge].neg;
    let new_v = res.vertex;
    let ws = wedge_start;
    let we = wedge_end;
    let empty = before.next(ws) == ws;
    let a = before.prev(ws);
    let b = before.prev(we);
    lemma_consistent_wedge_around(before, ws, we);
    lemma_split_vertex_setting(before, after, anchor, ws, we, coord, res);
    lemma_rotate_stays_at_vertex(before, ws, n);
    assert(before.half_edges[we].vertex == anchor);
    assert(!before.rotate_visits(ws, we, n));
    if ws != we {
        lemma_wedge_misses_before_start(before, ws, we, n);
        lemma_wedge_ends_before_end(before, ws, we, n);
        assert(before.rotate(ws, 0) == ws);
        assert(before.rotate_visits(ws, ws, n));
    }
    if !empty && before.half_edges[a].edge is Some {
        assert(before.meets_twin(a));
        lemma_twin_twin(before, a);
    }
    assert forall|k: HalfEdgeKey| after.half_edges.dom().contains(k) implies #[trigger] after.meets_twin(k) by {
        if k != hno && k != hon {
            assert(before.meets_twin(k));
            assert(before.he_links_ok(k));
            if before.half_edges[k].edge is Some {
                lemma_twin_twin(before, k);
                if before.next(k) != ws && before.next(k) != we {
                    lemma_wedge_closed(before, ws, we, n, k);
                }
                if before.next(k) == ws {
                    lemma_next_injective(before, k, a);
                }
                if before.next(k) == we {
                    lemma_next_injective(before, k, b);
                }
            }
        }
    }
}

/// Splitting a vertex of a valid, consistent solid, where turning around
/// the anchor from `wedge_start` reaches `wedge_end`, leaves it valid and
/// consistent, when an empty `wedge_start` belongs to no edge.
pub proof fn lemma_split_vertex_keeps_valid_and_consistent(
    before: SolidView,
    after: SolidView,
    anchor: VertexKey,
    wedge_start: HalfEdgeKey,
    wedge_end: HalfEdgeKey,
    coord: Point,
    res: SubdivideVtxRes,
)
    requires
        before.is_valid(),
        before.is_consistent(),
        before.half_edges.dom().contains(wedge_start),
        before.half_edges.dom().contains(wedge_end),
        before.half_edges[wedge_start].vertex == anchor,
        exists|n: nat| before.rotate_reaches(wedge_start, wedge_end, n),
        before.next(wedge_start) == wedge_start ==> before.half_edges[wedge_start].edge is None,
        before.splits_vertex(after, anchor, wedge_start, wedge_end, coord, res),
    ensures
        after.is_valid(),
        after.is_consistent(),
{
    lemma_consistent_wedge_around(before, wedge_start, wedge_end);
    lemma_split_vertex_keeps_valid(before, after, anchor, wedge_start, wedge_end, coord, res);
    lemma_split_vertex_keeps_consistent(before, after, anchor, wedge_start, wedge_end, coord, res);
}

/// After `split_vertex`, walking from a half-edge that was there before
/// reaches the half-edge that came after it before, in one to three steps.
proof fn lemma_split_vertex_step(
    before: SolidView,
    after: SolidView,
    anchor: VertexKey,
    wedge_start: HalfEdgeKey,
    wedge_end: HalfEdgeKey,
    coord: Point,
    res: SubdivideVtxRes,
    x: HalfEdgeKey,
)
    requires
        before.is_valid(),
        before.half_edges.dom().contains(wedge_start),
        before.half_edges.dom().contains(wedge_end),
        exists|n: nat| before.rotate_reaches(wedge_start, wedge_end, n),
        before.next(wedge_start) == wedge_start ==> before.half_edges[wedge_start].edge is None,
        before.splits_vertex(after, anchor, wedge_start, wedge_end, coord, res),
        before.half_edges.dom().contains(x),
    ensures
        exists|t: nat| 1 <= t <= 3 && #[trigger] after.walk(x, t) == before.next(x),
{
    let n = choose|n: nat| before.rotate_reaches(wedge_start, wedge_end, n);
    let hno = after.edges[res.edge].pos;
    let hon = after.edges[res.edge].neg;
    let ws = wedge_start;
    let we = wedge_end;
    let empty = before.next(ws) == ws;
    let a = before.prev(ws);
    let b = before.prev(we);
    assert(before.he_links_ok(ws));
    assert(before.he_links_ok(we));
    assert(before.he_links_ok(x));
    if empty && n > 0 {
        assert(before.has_twin(before.rotate(ws, 0)));
    }
    if ws != we {
        assert(n != 0);
        if a == b {
            assert(before.next(a) == ws);
        }
    }
    assert(after.walk(x, 0) == x);
    assert(after.walk(x, 1) == after.next(x));
    assert(after.walk(x, 2) == after.next(after.next(x)));
    assert(after.walk(x, 3) == after.next(after.next(after.next(x))));
    if empty {
        if x == ws {
            assert(after.walk(x, 2) == before.next(x));
        } else {
            assert(after.walk(x, 1) == before.next(x));
        }
    } else if ws == we {
        if x == a {
            assert(after.walk(x, 3) == before.next(x));
        } else {
            assert(after.walk(x, 1) == before.next(x));
        }
    } else {
        if x == a || x == b {
            assert(after.walk(x, 2) == before.next(x));
        } else {
            assert(after.walk(x, 1) == before.next(x));
        }
    }
}

/// After `split_vertex`, every half-edge met walking from a half-edge that
/// was there before is still met walking from it.
proof fn lemma_split_vertex_reach(
    before: SolidView,
    after: SolidView,
    anchor: VertexKey,
    wedge_start: HalfEdgeKey,
    wedge_end: HalfEdgeKey,
    coord: Point,
    res: SubdivideVtxRes,
    o: HalfEdgeKey,
    i: nat,
)
    requires
        before.is_valid(),
        before.half_edges.dom().contains(wedge_start),
        before.half_edges.dom().contains(wedge_end),
        exists|n: nat| before.rotate_reaches(wedge_start, wedge_end, n),
        before.next(wedge_start) == wedge_start ==> before.half_edges[wedge_start].edge is None,
        before.splits_vertex(after, anchor, wedge_start, wedge_end, coord, res),
        before.half_edges.dom().contains(o),
    ensures
        exists|j: nat| #[trigger] after.walk(o, j) == before.walk(o, i),
    decreases i,
{
    if i == 0 {
        assert(after.walk(o, 0) == before.walk(o, 0));
    } else {
        lemma_split_vertex_reach(before, after, anchor, wedge_start, wedge_end, coord, res, o, (i - 1) as nat);
        let x = before.walk(o, (i - 1) as nat);
        let j = choose|j: nat| #[trigger] after.walk(o, j) == x;
        lemma_walk_in_loop(before, o, (i - 1) as nat);
        lemma_split_vertex_step(before, after, anchor, wedge_start, wedge_end, coord, res, x);
        let t = choose|t: nat| 1 <= t <= 3 && #[trigger] after.walk(x, t) == before.next(x);
        lemma_walk_add(after, o, j, t);
        assert(after.walk(o, j + t) == before.walk(o, i));
    }
}

/// Splitting a vertex of a valid solid leaves its loops connected, when an
/// empty `wedge_start` belongs to no edge.
proof fn lemma_split_vertex_keeps_loops_connected(
    before: SolidView,
    after: SolidView,
    anchor: VertexKey,
    wedge_start: HalfEdgeKey,
    wedge_end: HalfEdgeKey,
    coord: Point,
    res: SubdivideVtxRes,
)
    requires
        before.is_valid(),
        before.half_edges.dom().contains(wedge_start),
        before.half_edges.dom().contains(wedge_end),
        exists|n: nat| before.rotate_reaches(wedge_start, wedge_end, n),
        before.next(wedge_start) == wedge_start ==> before.half_edges[wedge_start].edge is None,
        before.splits_vertex(after, anchor, wedge_start, wedge_end, coord, res),
    ensures
        after.loops_connected(),
{
    let n = choose|n: nat| before.rotate_reaches(wedge_start, wedge_end, n);
    let hno = after.edges[res.edge].pos;
    let hon = after.edges[res.edge].neg;
    let ws = wedge_start;
    let we = wedge_end;
    let empty = before.next(ws) == ws;
    let a = before.prev(ws);
    let b = before.prev(we);
    assert(before.he_links_ok(ws));
    assert(before.he_links_ok(we));
    assert(before.he_refs_ok(a));
    assert(before.he_refs_ok(b));
    if empty && n > 0 {
        assert(before.has_twin(before.rotate(ws, 0)));
    }
    // each old half-edge keeps its loop, whose half-edge is as before
    assert forall|k: HalfEdgeKey|
        before.half_edges.dom().contains(k) && #[trigger] before.on_its_loop(k) && (k != hon
            || empty) implies after.on_its_loop(k) by {
        if before.half_edges[k].edge_loop is Some {
            let lk = before.half_edges[k].edge_loop->Some_0;
            assert(before.he_refs_ok(k));
            assert(before.loop_ok(lk));
            let o = before.edge_loops[lk].half_edge;
            let i = choose|i: nat| #[trigger] before.walk(o, i) == k;
            lemma_split_vertex_reach(before, after, anchor, ws, we, coord, res, o, i);
            let j = choose|j: nat| #[trigger] after.walk(o, j) == before.walk(o, i);
            assert(after.half_edges[k].edge_loop == Some(lk));
            assert(after.edge_loops[lk].half_edge == o);
            assert(after.walk(o, j) == k);
        }
    }
    assert forall|k: HalfEdgeKey| after.half_edges.dom().contains(k) implies #[trigger] after.on_its_loop(k) by {
        if k != hno && (k != hon || empty) {
            assert(before.on_its_loop(k));
        } else {
            // a new half-edge follows a half-edge of its loop that was there
            let x = if k == hon {
                a
            } else if empty {
                ws
            } else if ws == we {
                hon
            } else {
                b
            };
            let lx = after.half_edges[k].edge_loop;
            if k == hon {
                assert(before.on_its_loop(a));
                assert(after.on_its_loop(a));
            } else if empty {
                assert(before.on_its_loop(ws));
                assert(after.on_its_loop(ws));
            } else if ws != we {
                assert(before.on_its_loop(b));
                assert(after.on_its_loop(b));
            } else {
                assert(before.on_its_loop(a));
                assert(after.on_its_loop(a));
            }
            assert(after.half_edges[x].edge_loop == lx);
            assert(after.next(x) == k);
            if lx is Some {
                let o = after.edge_loops[lx->Some_0].half_edge;
                if k == hno && !empty && ws == we {
                    let ja = choose|j: nat| #[trigger] after.walk(o, j) == a;
                    assert(after.walk(o, ja + 1) == hon);
                    assert(after.walk(o, ja + 2) == hno);
                } else {
                    let jx = choose|j: nat| #[trigger] after.walk(o, j) == x;
                    assert(after.walk(o, jx + 1) == k);
                }
            }
        }
    }
}

/// Splitting a vertex adds a vertex and an edge: the Euler count of the
/// solid stays as it was.
pub proof fn lemma_split_vertex_counts(
    before: SolidView,
    after: SolidView,
    anchor: VertexKey,
    wedge_start: HalfEdgeKey,
    wedge_end: HalfEdgeKey,
    coord: Point,
    res: SubdivideVtxRes,
)
    requires
        before.is_finite(),
        before.vertices.dom().contains(anchor),
        before.splits_vertex(after, anchor, wedge_start, wedge_end, coord, res),
    ensures
        after.vertices.len() == before.vertices.len() + 1,
        after.edges.len() == before.edges.len() + 1,
        after.faces.len() == before.faces.len(),
        after.edge_loops.len() == before.edge_loops.len(),
        after.euler_count() == before.euler_count(),
{
    if before.next(wedge_start) != wedge_start {
        assert(before.vertices.insert(anchor, Vertex { half_edge: Some(after.edges[res.edge].neg), ..before.vertices[anchor] }).dom()
            =~= before.vertices.dom());
    }
}

/// When `can_subdivide_vtx` accepts its arguments on a valid solid, they
/// meet what `split_vertex` asks of its arguments, but for room in the
/// solid's storage.
pub proof fn lemma_can_subdivide_admits_split(
    s: SolidView,
    anchor: VertexKey,
    wedge_start: HalfEdgeKey,
    wedge_end: HalfEdgeKey,
)
    requires
        s.is_valid(),
        s.half_edges.dom().contains(wedge_start),
        s.half_edges.dom().contains(wedge_end),
        anchor == s.half_edges[wedge_start].vertex,
        anchor == s.half_edges[wedge_end].vertex,
        exists|n: nat| s.rotate_reaches(wedge_start, wedge_end, n),
    ensures
        s.vertices.dom().contains(anchor),
        s.linked(wedge_start),
        s.linked(wedge_end),
        s.linked(s.prev(wedge_start)),
        s.linked(s.prev(wedge_end)),
{
    assert(s.he_refs_ok(wedge_start));
    assert(s.he_links_ok(wedge_start));
    assert(s.he_links_ok(wedge_end));
    assert(s.he_links_ok(s.prev(wedge_start)));
    assert(s.he_links_ok(s.prev(wedge_end)));
}

/// In a valid solid, turning once around a vertex leads different
/// half-edges that have twins to different half-edges.
proof fn lemma_turn_injective(s: SolidView, a: HalfEdgeKey, b: HalfEdgeKey)
    requires
        s.is_valid(),
        s.has_twin(a),
        s.has_twin(b),
        s.next(s.twin(a)) == s.next(s.twin(b)),
    ensures
        a == b,
{
    let ea = s.half_edges[a].edge->Some_0;
    let eb = s.half_edges[b].edge->Some_0;
    assert(s.edges.dom().contains(ea));
    assert(s.edges.dom().contains(eb));
    assert(s.edge_ok(ea));
    assert(s.edge_ok(eb));
    let ta = s.twin(a);
    let tb = s.twin(b);
    assert(s.he_links_ok(ta));
    assert(s.he_links_ok(tb));
    assert(s.half_edges.dom().contains(ta));
    assert(s.half_edges.dom().contains(tb));
    assert(s.prev(s.next(ta)) == ta);
    assert(s.prev(s.next(tb)) == tb);
    assert(ta == tb);
    assert(s.half_edges[ta].edge == Some(ea));
    assert(s.half_edges[tb].edge == Some(eb));
}

/// Turning `a + b` times is turning `a` times, then `b` times.
proof fn lemma_rotate_add(s: SolidView, h: HalfEdgeKey, a: nat, b: nat)
    ensures
        s.rotate(h, a + b) == s.rotate(s.rotate(h, a), b),
    decreases b,
{
    if b > 0 {
        lemma_rotate_add(s, h, a, (b - 1) as nat);
        assert(s.rotate(h, a + b) == s.next(s.twin(s.rotate(h, (a + b - 1) as nat))));
    }
}

/// Once turning from `start` comes back to `start` after `p` turns, every
/// half-edge met is among the first `p`.
proof fn lemma_rotate_periodic(s: SolidView, start: HalfEdgeKey, p: nat, n: nat)
    requires
        p > 0,
        s.rotate(start, p) == start,
    ensures
        exists|j: nat| j < p && s.rotate(start, n) == #[trigger] s.rotate(start, j),
    decreases n,
{
    if n < p {
        lemma_rotate_add(s, start, n, 0);
    } else {
        let m = (n - p) as nat;
        lemma_rotate_add(s, start, p, m);
        assert(p + m == n);
        lemma_rotate_periodic(s, start, p, m);
        let j = choose|j: nat| j < p && s.rotate(start, m) == #[trigger] s.rotate(start, j);
        assert(j < p && s.rotate(start, n) == s.rotate(start, j));
    }
}

/// Turning from `start` toward `end` has one outcome: it reaches `end`,
/// comes back to `start` first, or meets a half-edge without a twin first.
proof fn lemma_rotate_outcomes_exclusive(s: SolidView, start: HalfEdgeKey, end: HalfEdgeKey)
    ensures
        s.rotate_returns(start, end) ==> !exists|n: nat| s.rotate_reaches(start, end, n),
        s.rotate_misses_twin(start, end) ==> !exists|n: nat| s.rotate_reaches(start, end, n),
        !(s.rotate_returns(start, end) && s.rotate_misses_twin(start, end)),
{
    if s.rotate_returns(start, end) {
        let p = choose|i: nat|
            0 < i && s.rotate_clear(start, end, i) && #[trigger] s.rotate(start, i) == start
                && start != end;
        assert forall|n: nat| !s.rotate_reaches(start, end, n) by {
            if s.rotate_reaches(start, end, n) {
                lemma_rotate_periodic(s, start, p, n);
                let j = choose|j: nat| j < p && s.rotate(start, n) == #[trigger] s.rotate(start, j);
                assert(s.rotate(start, j) != end);
            }
        }
        if s.rotate_misses_twin(start, end) {
            let q = choose|i: nat|
                s.rotate_clear(start, end, i) && #[trigger] s.rotate(start, i) != end && (i > 0
                    ==> s.rotate(start, i) != start) && s.half_edges[s.rotate(start, i)].edge is None;
            if q < p {
                assert(s.has_twin(s.rotate(start, q)));
            } else if q > p {
                assert(s.rotate(start, p) != start);
            }
        }
    }
    if s.rotate_misses_twin(start, end) {
        let q = choose|i: nat|
            s.rotate_clear(start, end, i) && #[trigger] s.rotate(start, i) != end && (i > 0
                ==> s.rotate(start, i) != start) && s.half_edges[s.rotate(start, i)].edge is None;
        assert forall|n: nat| !s.rotate_reaches(start, end, n) by {
            if s.rotate_reaches(start, end, n) {
                if n < q {
                    assert(s.rotate(start, n) != end);
                } else if n > q {
                    assert(s.has_twin(s.rotate(start, q)));
                }
            }
        }
    }
}

/// Distinct half-edges of a valid solid number no more than its half-edges.
proof fn lemma_distinct_turns_bounded(s: SolidView, start: HalfEdgeKey, n: nat)
    requires
        s.is_valid(),
        forall|j: nat| j < n ==> s.half_edges.dom().contains(#[trigger] s.rotate(start, j)),
        forall|a: nat, b: nat| a < b < n ==> s.rotate(start, a) != s.rotate(start, b),
    ensures
        n <= s.half_edges.len(),
{
    let sq = Seq::new(n, |j: int| s.rotate(start, j as nat));
    assert(sq.no_duplicates()) by {
        assert forall|a: int, b: int| 0 <= a < sq.len() && 0 <= b < sq.len() && a != b implies sq[a]
            != sq[b] by {
            if a < b {
                assert(s.rotate(start, a as nat) != s.rotate(start, b as nat));
            } else {
                assert(s.rotate(start, b as nat) != s.rotate(start, a as nat));
            }
        }
    }
    sq.unique_seq_to_set();
    assert(sq.to_set().subset_of(s.half_edges.dom())) by {
        assert forall|k: HalfEdgeKey| sq.to_set().contains(k) implies s.half_edges.dom().contains(
            k,
        ) by {
            let j = choose|j: int| 0 <= j < sq.len() && sq[j] == k;
            assert(s.half_edges.dom().contains(s.rotate(start, j as nat)));
        }
    }
    vstd::set_lib::lemma_len_subset(sq.to_set(), s.half_edges.dom());
}

// non-mutating operations
impl<S: TopologyRead> Topology<S> {
    /// Check that both wedge half-edges start at `anchor`.
    fn same_wedge_origin(
        &self,
        anchor: VertexKey,
        wedge_start: HalfEdgeKey,
        wedge_end: HalfEdgeKey,
    ) -> (r: Result<(), SplitVtxErr>)
        requires
            self@.half_edges.dom().contains(wedge_start),
            self@.half_edges.dom().contains(wedge_end),
        ensures
            r == if anchor == self@.half_edges[wedge_start].vertex && anchor
                == self@.half_edges[wedge_end].vertex {
                Ok::<(), SplitVtxErr>(())
            } else {
                Err(SplitVtxErr::WedgeOriginMismatch)
            },
    {
        if anchor == self.solid.half_edge(wedge_start).vertex && anchor == self.solid.half_edge(
            wedge_end,
        ).vertex {
            Ok(())
        } else {
            Err(SplitVtxErr::WedgeOriginMismatch)
        }
    }

    /// Check if wedge cycle is broken and if any half-edges within the range
    /// is missing a twin.
    fn wedge_cycle_broken(&self, wedge_start: HalfEdgeKey, wedge_end: HalfEdgeKey) -> (r: Result<
        (),
        SplitVtxErr,
    >)
        requires
            self@.is_valid(),
            self@.half_edges.dom().contains(wedge_start),
        ensures
            r is Ok <==> exists|n: nat| self@.rotate_reaches(wedge_start, wedge_end, n),
            r == Err::<(), SplitVtxErr>(SplitVtxErr::BrokenWedgeCycle) ==> self@.rotate_returns(
                wedge_start,
                wedge_end,
            ),
            r == Err::<(), SplitVtxErr>(SplitVtxErr::HalfEdgeMissingTwin)
                ==> self@.rotate_misses_twin(wedge_start, wedge_end),
            r != Err::<(), SplitVtxErr>(SplitVtxErr::WedgeOriginMismatch),
    {
        let ghost s = self@;
        let mut he = wedge_start;
        let mut past_start = false;
        let ghost mut i: nat = 0;
        while he != wedge_end
            invariant
                s == self@,
                s.is_valid(),
                s.half_edges.dom().contains(wedge_start),
                he == s.rotate(wedge_start, i),
                past_start == (i > 0),
                s.half_edges.dom().contains(he),
                s.rotate_clear(wedge_start, wedge_end, i),
                forall|a: nat, b: nat|
                    a < b < i ==> s.rotate(wedge_start, a) != s.rotate(wedge_start, b),
                forall|j: nat|
                    j < i ==> s.half_edges.dom().contains(#[trigger] s.rotate(wedge_start, j)),
                i <= s.half_edges.len(),
            decreases s.half_edges.len() - i,
        {
            // check if this will become an infinite loop
            if past_start && he == wedge_start {
                proof {
                    assert(s.rotate(wedge_start, i) == wedge_start);
                    assert(s.rotate_returns(wedge_start, wedge_end));
                    if exists|n: nat| s.rotate_reaches(wedge_start, wedge_end, n) {
                        let n = choose|n: nat| s.rotate_reaches(wedge_start, wedge_end, n);
                        if n < i {
                            assert(s.rotate(wedge_start, n) != wedge_end);
                        }
                        assert(n > i);
                        lemma_rotate_add(s, wedge_start, i, (n - i) as nat);
                        assert(s.rotate(wedge_start, (n - i) as nat) != wedge_end);
                    }
                }
                return Err(SplitVtxErr::BrokenWedgeCycle);
            }
            proof {
                assert(s.he_refs_ok(he));
                if s.half_edges[he].edge is Some {
                    assert(s.edge_ok(s.half_edges[he].edge->Some_0));
                    assert(s.he_links_ok(s.twin(he)));
                }
            }
            // come back to anchor but in context of the next half-edge.
            //
            // twin takes us to the opposing halfedge which starts at the vertex
            // before the anchor, then next takes us back the anchor but in the
            // context of a different half-edge!
            match self.he_twin(he) {
                Some(half_edge) => he = half_edge.get_next(),
                None => {
                    proof {
                        assert(s.half_edges[s.rotate(wedge_start, i)].edge is None);
                        assert(s.rotate_misses_twin(wedge_start, wedge_end));
                        if exists|n: nat| s.rotate_reaches(wedge_start, wedge_end, n) {
                            let n = choose|n: nat| s.rotate_reaches(wedge_start, wedge_end, n);
                            if n < i {
                                assert(s.rotate(wedge_start, n) != wedge_end);
                            }
                            assert(n > i);
                            assert(s.has_twin(s.rotate(wedge_start, i)));
                        }
                    }
                    return Err(SplitVtxErr::HalfEdgeMissingTwin);
                },
            }

            past_start = true;
            proof {
                let h = s.rotate(wedge_start, i);
                assert(s.has_twin(h));
                assert(he == s.rotate(wedge_start, i + 1));
                assert forall|a: nat| a < i implies s.rotate(wedge_start, a) != s.rotate(
                    wedge_start,
                    i,
                ) by {
                    if a > 0 && s.rotate(wedge_start, a) == s.rotate(wedge_start, i) {
                        let pa = s.rotate(wedge_start, (a - 1) as nat);
                        let pi = s.rotate(wedge_start, (i - 1) as nat);
                        assert(s.has_twin(pa));
                        assert(s.has_twin(pi));
                        lemma_turn_injective(s, pa, pi);
                    }
                }
                i = i + 1;
                assert(s.rotate_clear(wedge_start, wedge_end, i));
                assert(s.half_edges.dom().contains(he));
                assert forall|a: nat, b: nat| a < b < i implies s.rotate(wedge_start, a) != s.rotate(
                    wedge_start,
                    b,
                ) by {
                    if b == i - 1 {
                        assert(s.rotate(wedge_start, a) != s.rotate(wedge_start, (i - 1) as nat));
                    }
                }
                lemma_distinct_turns_bounded(s, wedge_start, i);
            }
        }
        proof {
            assert forall|j: nat| j < i implies {
                &&& s.has_twin(#[trigger] s.rotate(wedge_start, j))
                &&& s.linked(s.twin(s.rotate(wedge_start, j)))
            } by {
                let h = s.rotate(wedge_start, j);
                assert(s.has_twin(h));
                assert(s.edge_ok(s.half_edges[h].edge->Some_0));
                assert(s.he_links_ok(s.twin(h)));
            }
            assert(s.rotate_reaches(wedge_start, wedge_end, i));
        }
        Ok(())
    }

    /// Check if the vertex within a range specified by [wedge_start, wedge_end)
    /// is subdividable. Used to check input parameters of `split_vertex`, which
    /// mutates data and does not accept such input.
    pub fn can_subdivide_vtx(
        &self,
        anchor: VertexKey,
        wedge_start: HalfEdgeKey,
        wedge_end: HalfEdgeKey,
    ) -> (r: Result<(), SplitVtxErr>)
        requires
            self@.is_valid(),
            self@.half_edges.dom().contains(wedge_start),
            self@.half_edges.dom().contains(wedge_end),
        ensures
            r == Err::<(), SplitVtxErr>(SplitVtxErr::WedgeOriginMismatch) <==> !(anchor
                == self@.half_edges[wedge_start].vertex && anchor
                == self@.half_edges[wedge_end].vertex),
            r is Ok <==> {
                &&& anchor == self@.half_edges[wedge_start].vertex
                &&& anchor == self@.half_edges[wedge_end].vertex
                &&& exists|n: nat| self@.rotate_reaches(wedge_start, wedge_end, n)
            },
            r == Err::<(), SplitVtxErr>(SplitVtxErr::BrokenWedgeCycle) <==> {
                &&& anchor == self@.half_edges[wedge_start].vertex
                &&& anchor == self@.half_edges[wedge_end].vertex
                &&& self@.rotate_returns(wedge_start, wedge_end)
            },
            r == Err::<(), SplitVtxErr>(SplitVtxErr::HalfEdgeMissingTwin) <==> {
                &&& anchor == self@.half_edges[wedge_start].vertex
                &&& anchor == self@.half_edges[wedge_end].vertex
                &&& self@.rotate_misses_twin(wedge_start, wedge_end)
            },
    {
        proof {
            lemma_rotate_outcomes_exclusive(self@, wedge_start, wedge_end);
        }
        // check if wedge_start and wedge_end are on the same vertex
        self.same_wedge_origin(anchor, wedge_start, wedge_end)?;
        self.wedge_cycle_broken(wedge_start, wedge_end)?;

        Ok(())
    }

    /// Check whether `target` can be dissolved into `anchor`; it checks nothing yet.
    pub fn can_dissolve_vtx(&self, anchor: VertexKey, target: VertexKey) {
    }
}

// mutating operations
impl<S: TopologyWrite> Topology<S> {
    /// "Split" a vertex at a halfedge, moving the edges contained with a "wedge"
    /// to the new vertex and assigning the loops of two newly created halfedges
    /// to those of the first and the last wedges.
    ///
    /// Range is specified by [wedge_start, wedge_end)
    ///
    /// Returns the keys to the newly created edge and vertex.
    ///
    /// Both `wedge_start` and `wedge_end` must start at `anchor`, and turning
    /// around `anchor` from `wedge_start` must reach `wedge_end`; check with
    /// `can_subdivide_vtx` first where that is not known.
    pub fn split_vertex(
        &mut self,
        anchor: VertexKey,
        wedge_start: HalfEdgeKey,
        wedge_end: HalfEdgeKey,
        coord: Point,
    ) -> (res: SubdivideVtxRes)
        requires
            old(self)@.vertices.dom().contains(anchor),
            old(self)@.linked(wedge_start),
            old(self)@.linked(wedge_end),
            old(self)@.half_edges[wedge_start].vertex == anchor,
            old(self)@.half_edges[wedge_end].vertex == anchor,
            exists|n: nat| old(self)@.rotate_reaches(wedge_start, wedge_end, n),
            old(self)@.next(wedge_start) != wedge_start ==> old(self)@.linked(
                old(self)@.prev(wedge_start),
            ),
            old(self)@.next(wedge_start) == wedge_start || wedge_start != wedge_end
                ==> old(self)@.linked(old(self)@.prev(wedge_end)),
            old(self)@.vertices.len() < SLOT_CAPACITY,
            old(self)@.half_edges.len() + 1 < SLOT_CAPACITY,
            old(self)@.edges.len() < SLOT_CAPACITY,
        ensures
            old(self)@.splits_vertex(final(self)@, anchor, wedge_start, wedge_end, coord, res),
    {
        let ghost v0 = self@;
        let ghost n = choose|n: nat| v0.rotate_reaches(wedge_start, wedge_end, n);

        // create new vertex
        let new_v = self.solid.add_vertex(Vertex::new(coord));
        let ghost v1 = self@;
        proof {
            assert(v0.with_vertex_along(v0.half_edges, wedge_start, 0, new_v) =~= v0.half_edges);
        }

        // reassign half-edges in [wedge_start, wedge_end) to the new vertex
        let mut he = wedge_start;
        let mut past_start = false;
        let ghost mut i: nat = 0;
        while he != wedge_end
            invariant
                v0.rotate_reaches(wedge_start, wedge_end, n),
                i <= n,
                he == v0.rotate(wedge_start, i),
                past_start == (i > 0),
                v1 == (SolidView {
                    vertices: v0.vertices.insert(new_v, Vertex { coord, half_edge: None }),
                    ..v0
                }),
                self@ == (SolidView {
                    half_edges: v0.with_vertex_along(v0.half_edges, wedge_start, i, new_v),
                    ..v1
                }),
            decreases n - i,
        {
            proof {
                assert(i < n);
                let h = v0.rotate(wedge_start, i);
                assert(v0.has_twin(h));
                assert(v0.linked(v0.twin(h)));
            }
            self.solid.half_edge_mut(he).vertex = new_v;

            // come back to anchor but in context of the next half-edge.
            //
            // twin takes us to the opposing halfedge which starts at the vertex
            // before the anchor, then next takes us back the anchor but in the
            // context of a different half-edge!
            he = self.he_twin(he).unwrap().get_next();

            past_start = true;
            proof {
                i = i + 1;
                assert(self@.half_edges =~= v0.with_vertex_along(
                    v0.half_edges,
                    wedge_start,
                    i,
                    new_v,
                )) by {
                    assert forall|k: HalfEdgeKey|
                        v0.rotate_visits(wedge_start, k, i) == (v0.rotate_visits(
                            wedge_start,
                            k,
                            (i - 1) as nat,
                        ) || k == v0.rotate(wedge_start, (i - 1) as nat)) by {
                        if v0.rotate_visits(wedge_start, k, i) {
                            let j = choose|j: nat| j < i && #[trigger] v0.rotate(wedge_start, j) == k;
                            if j < i - 1 {
                                assert(v0.rotate_visits(wedge_start, k, (i - 1) as nat));
                            }
                        }
                        if v0.rotate_visits(wedge_start, k, (i - 1) as nat) {
                            let j = choose|j: nat|
                                j < i - 1 && #[trigger] v0.rotate(wedge_start, j) == k;
                            assert(v0.rotate(wedge_start, j) == k);
                        }
                    }
                }
            }
        }
        let ghost v2 = self@;
        proof {
            assert(v2.half_edges.dom() =~= v0.half_edges.dom());
        }

        // edge case: "Empty" half edge (half edge with no neighbors,
        // obtained from `add_skeletal_primitive`)
        let start_is_empty = !self.solid.he_has_neighbors(wedge_start);
        let he_old_new: HalfEdgeKey;
        if start_is_empty {
            // don't make a new old -> new half-edge;
            // use the empty half-edge instead
            he_old_new = wedge_start;
        } else {
            he_old_new = self.solid.add_half_edge(HalfEdge::new(anchor));
        }

        // make new edge between the anchor and the new vertex
        let he_new_old = self.solid.add_half_edge(HalfEdge::new(new_v));

        // insert into the loops
        // wedge_end stayed at the anchor and we insert a new
        // halfedge that goes before wedge_end, starting at the new vertex
        if !start_is_empty {
            self.insert_he_before(he_old_new, wedge_start);
        }
        self.insert_he_before(he_new_old, wedge_end);

        // now we identify properly them with an edge
        let edge = self.solid.add_edge(Edge::new(he_new_old, he_old_new));

        let res = SubdivideVtxRes { edge: edge, vertex: new_v };
        proof {
            if start_is_empty {
                assert(self@.vertices =~= v0.vertices.insert(
                    new_v,
                    Vertex { coord, half_edge: Some(he_new_old) },
                ));
            } else {
                assert(self@.vertices =~= v0.vertices.insert(
                    anchor,
                    Vertex { half_edge: Some(he_old_new), ..v0.vertices[anchor] },
                ).insert(new_v, Vertex { coord, half_edge: Some(he_new_old) }));
            }
        }
        res
    }

    /// Dissolve a target vertex by removing it and joining its loops with
    /// an anchor vertex; it changes nothing yet.
    pub fn dissolve_vertex(&mut self, anchor: VertexKey, target: VertexKey)
        ensures
            final(self)@ == old(self)@,
    {
        // Can't dissolve the same vertex!
    }
}

// the same operator, called on a solid directly
impl Solid {
    /// Split a vertex at a halfedge, moving the edges contained with a "wedge"
    /// to the new vertex and assigning the loops of two newly created halfedges
    /// to those of the first and the last wedges.
    ///
    /// Range is specified by [wedge_start, wedge_end)
    ///
    /// Returns the keys to the newly created edge and vertex.
    pub fn split_vertex(
        &mut self,
        anchor: VertexKey,
        wedge_start: HalfEdgeKey,
        wedge_end: HalfEdgeKey,
        coord: Point,
    ) -> (res: ExtendVertexRes)
        requires
            old(self).solid_view().vertices.dom().contains(anchor),
            old(self).solid_view().linked(wedge_start),
            old(self).solid_view().linked(wedge_end),
            old(self).solid_view().half_edges[wedge_start].vertex == anchor,
            old(self).solid_view().half_edges[wedge_end].vertex == anchor,
            exists|n: nat| old(self).solid_view().rotate_reaches(wedge_start, wedge_end, n),
            old(self).solid_view().next(wedge_start) != wedge_start ==> old(
                self,
            ).solid_view().linked(old(self).solid_view().prev(wedge_start)),
            old(self).solid_view().next(wedge_start) == wedge_start || wedge_start != wedge_end
                ==> old(self).solid_view().linked(old(self).solid_view().prev(wedge_end)),
            old(self).solid_view().vertices.len() < SLOT_CAPACITY,
            old(self).solid_view().half_edges.len() + 1 < SLOT_CAPACITY,
            old(self).solid_view().edges.len() < SLOT_CAPACITY,
        ensures
            old(self).solid_view().splits_vertex(
                (*final(self)).solid_view(),
                anchor,
                wedge_start,
                wedge_end,
                coord,
                res,
            ),
    {
        let mut t = Topology { solid: self.take() };
        let res = t.split_vertex(anchor, wedge_start, wedge_end, coord);
        *self = t.solid;
        res
    }
}

} // verus!
