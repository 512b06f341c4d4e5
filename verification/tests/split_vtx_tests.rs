use gwb::geometry::point::Point;
use gwb::scalar::Real;
use gwb::topology::euler::SplitVtxErr;
use gwb::topology::{
    Edge, EdgeLoop, HalfEdge, HalfEdgeKey, HalfEdgeNeighbors, Solid, TopologyRead, TopologyWrite,
    Vertex, VertexKey,
};

fn point(x: f64, y: f64, z: f64) -> Point {
    Point::new(
        Real::from_bits(x.to_bits()),
        Real::from_bits(y.to_bits()),
        Real::from_bits(z.to_bits()),
    )
}

#[test]
fn split_vtx() {
    let mut solid = Solid::new();
    let mut topol = solid.topology_mut();

    let skel_prim = topol.add_skeletal_primitive(point(0.0, 0.0, 0.0));
    let res = topol.split_vertex(
        skel_prim.vertex,
        skel_prim.half_edge,
        skel_prim.half_edge,
        point(1.0, 0.0, 0.0),
    );

    assert!(
        topol.edge_is_strut_neg(res.edge) && topol.edge_is_strut_pos(res.edge),
        "Created edge is not a strut edge!"
    );
}

#[test]
fn split_lone_vertex_reuses_its_half_edge() {
    let mut solid = Solid::new();
    let mut topol = solid.topology_mut();
    let p = topol.add_skeletal_primitive(point(0.0, 0.0, 0.0));
    let res = topol.split_vertex(p.vertex, p.half_edge, p.half_edge, point(2.0, 0.0, 0.0));

    let edge = *topol.solid.edge(res.edge);
    // the lone half-edge becomes the negative half-edge, from the anchor
    assert_eq!(edge.neg, p.half_edge);
    assert_ne!(edge.pos, edge.neg);
    let pos = topol.solid.half_edge(edge.pos).clone();
    let neg = topol.solid.half_edge(edge.neg).clone();
    assert_eq!(pos.vertex, res.vertex);
    assert_eq!(neg.vertex, p.vertex);
    assert_eq!(pos.edge, Some(res.edge));
    assert_eq!(neg.edge, Some(res.edge));
    assert_eq!(pos.get_next(), edge.neg);
    assert_eq!(pos.get_prev(), edge.neg);
    assert_eq!(neg.get_next(), edge.pos);
    assert_eq!(neg.get_prev(), edge.pos);
    assert_eq!(pos.edge_loop, Some(p.edge_loop));
    assert_eq!(neg.edge_loop, Some(p.edge_loop));
    assert_eq!(topol.solid.vertex(res.vertex).coord, point(2.0, 0.0, 0.0));
    assert_eq!(topol.solid.vertex(res.vertex).half_edge, Some(edge.pos));

    // one vertex and one edge more, one half-edge more: the Euler count
    // V - E + 2F - L stays at 2
    assert_eq!(solid.n_vertices(), 2);
    assert_eq!(solid.n_edges(), 1);
    assert_eq!(solid.n_half_edges(), 2);
    assert_eq!(solid.n_faces(), 1);
    assert_eq!(solid.n_loops(), 1);
}

#[test]
fn split_vertex_twice_makes_a_chain() {
    let mut solid = Solid::new();
    let mut topol = solid.topology_mut();
    let p = topol.add_skeletal_primitive(point(0.0, 0.0, 0.0));
    let first = topol.split_vertex(p.vertex, p.half_edge, p.half_edge, point(1.0, 0.0, 0.0));
    let e1 = *topol.solid.edge(first.edge);
    // split the new vertex at its half-edge
    let second = topol.split_vertex(first.vertex, e1.pos, e1.pos, point(2.0, 0.0, 0.0));
    let e2 = *topol.solid.edge(second.edge);

    // the loop runs v0 -> v1 -> v2 -> v1 -> v0
    let h0 = p.half_edge;
    assert_eq!(topol.solid.half_edge(h0).get_next(), e2.neg);
    assert_eq!(topol.solid.half_edge(e2.neg).get_next(), e2.pos);
    assert_eq!(topol.solid.half_edge(e2.pos).get_next(), e1.pos);
    assert_eq!(topol.solid.half_edge(e1.pos).get_next(), h0);
    assert_eq!(topol.solid.half_edge(e2.neg).vertex, first.vertex);
    assert_eq!(topol.solid.half_edge(e2.pos).vertex, second.vertex);
    // the first edge's positive half-edge still leads straight into its
    // negative one; the second edge's positive half-edge does not
    assert!(topol.edge_is_strut_pos(first.edge));
    assert!(topol.edge_is_strut_neg(first.edge));
    assert!(!topol.edge_is_strut_pos(second.edge));
    assert!(!topol.edge_is_strut_neg(second.edge));

    assert_eq!(solid.n_vertices(), 3);
    assert_eq!(solid.n_edges(), 2);
    assert_eq!(solid.n_half_edges(), 4);
}

#[test]
fn split_vertex_on_solid() {
    let mut solid = Solid::new();
    let p = solid.new_skeletal_primitive(point(0.0, 0.0, 0.0));
    let res = solid.split_vertex(p.vertex, p.half_edge, p.half_edge, point(0.0, 0.0, 1.0));
    assert!(solid.topology().edge_is_strut_pos(res.edge));
    assert!(solid.topology().edge_is_strut_neg(res.edge));
    assert_eq!(solid.n_vertices(), 2);
    assert_eq!(solid.n_edges(), 1);
}

#[test]
fn can_subdivide_lone_vertex() {
    let mut solid = Solid::new();
    let p = solid.new_skeletal_primitive(point(0.0, 0.0, 0.0));
    assert_eq!(
        solid.topology().can_subdivide_vtx(p.vertex, p.half_edge, p.half_edge),
        Ok(())
    );
}

#[test]
fn can_subdivide_rejects_foreign_anchor() {
    let mut solid = Solid::new();
    let a = solid.new_skeletal_primitive(point(0.0, 0.0, 0.0));
    let b = solid.new_skeletal_primitive(point(1.0, 0.0, 0.0));
    assert_eq!(
        solid.topology().can_subdivide_vtx(b.vertex, a.half_edge, a.half_edge),
        Err(SplitVtxErr::WedgeOriginMismatch)
    );
    assert_eq!(
        solid.topology().can_subdivide_vtx(a.vertex, a.half_edge, b.half_edge),
        Err(SplitVtxErr::WedgeOriginMismatch)
    );
}

#[test]
fn can_subdivide_around_a_fan() {
    // a vertex with two edges: turning from either half-edge meets the other
    let mut solid = Solid::new();
    let p = solid.new_skeletal_primitive(point(0.0, 0.0, 0.0));
    let first = solid.split_vertex(p.vertex, p.half_edge, p.half_edge, point(1.0, 0.0, 0.0));
    let second = solid.split_vertex(p.vertex, p.half_edge, p.half_edge, point(0.0, 1.0, 0.0));
    let e1 = *solid.edge(first.edge);
    let e2 = *solid.edge(second.edge);
    assert_eq!(solid.half_edge(e1.neg).vertex, p.vertex);
    assert_eq!(solid.half_edge(e2.neg).vertex, p.vertex);
    let t = solid.topology();
    assert_eq!(t.can_subdivide_vtx(p.vertex, e1.neg, e2.neg), Ok(()));
    assert_eq!(t.can_subdivide_vtx(p.vertex, e2.neg, e1.neg), Ok(()));
    assert_eq!(solid.n_vertices(), 3);
    assert_eq!(solid.n_edges(), 2);
}

#[test]
fn can_subdivide_detects_missing_twin() {
    // a face split at one half-edge leaves that half-edge without a twin,
    // beside the new zero-length half-edge from the same vertex
    let mut solid = Solid::new();
    let p = solid.new_skeletal_primitive(point(0.0, 0.0, 0.0));
    let res = solid.split_face(p.half_edge, p.half_edge);
    let e = *solid.edge(res.edge);
    assert_eq!(solid.half_edge(e.pos).vertex, p.vertex);
    assert_eq!(
        solid.topology().can_subdivide_vtx(p.vertex, p.half_edge, e.pos),
        Err(SplitVtxErr::HalfEdgeMissingTwin)
    );
}

/// Adds an edge from `a` to `b` whose two half-edges form a loop of their
/// own, and returns the half-edge from `a`.
fn strut(solid: &mut Solid, a: VertexKey, b: VertexKey) -> HalfEdgeKey {
    let ha = solid.add_half_edge(HalfEdge::new(a));
    let hb = solid.add_half_edge(HalfEdge::new(b));
    solid.set_he_neighbors(ha, HalfEdgeNeighbors { next: hb, prev: hb });
    solid.set_he_neighbors(hb, HalfEdgeNeighbors { next: ha, prev: ha });
    solid.add_edge(Edge::new(ha, hb));
    let l = solid.add_edge_loop(EdgeLoop::new(ha));
    solid.half_edge_mut(hb).edge_loop = Some(l);
    ha
}

#[test]
fn can_subdivide_detects_broken_wedge_cycle() {
    // two struts that share vertex v0 but no loop: turning around v0 from
    // one strut comes back to it without meeting the other
    let mut solid = Solid::new();
    let v0 = solid.add_vertex(Vertex::new(point(0.0, 0.0, 0.0)));
    let v1 = solid.add_vertex(Vertex::new(point(1.0, 0.0, 0.0)));
    let v2 = solid.add_vertex(Vertex::new(point(0.0, 1.0, 0.0)));
    let a = strut(&mut solid, v0, v1);
    let b = strut(&mut solid, v0, v2);
    let t = solid.topology();
    assert_eq!(t.can_subdivide_vtx(v0, a, b), Err(SplitVtxErr::BrokenWedgeCycle));
    assert_eq!(t.can_subdivide_vtx(v0, b, a), Err(SplitVtxErr::BrokenWedgeCycle));
    assert_eq!(t.can_subdivide_vtx(v0, a, a), Ok(()));
}

#[test]
fn split_vtx_err_messages() {
    assert_eq!(
        SplitVtxErr::WedgeOriginMismatch.message(),
        "anchor does not belong to wedge_start or wedge_end"
    );
    assert_eq!(
        SplitVtxErr::BrokenWedgeCycle.message(),
        "detected a cycle that starts and ends at wedge_start and does not go through wedge_end"
    );
    assert_eq!(
        SplitVtxErr::HalfEdgeMissingTwin.message(),
        "half-edge in [wedge_start, wedge_end) has no twin"
    );
}
