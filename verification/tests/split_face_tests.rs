use gwb::geometry::point::Point;
use gwb::scalar::Real;
use gwb::topology::{HalfEdgeKey, Solid, TopologyRead};

fn point(x: f64, y: f64, z: f64) -> Point {
    Point::new(
        Real::from_bits(x.to_bits()),
        Real::from_bits(y.to_bits()),
        Real::from_bits(z.to_bits()),
    )
}

fn next(solid: &Solid, h: HalfEdgeKey) -> HalfEdgeKey {
    solid.half_edge(h).get_next()
}

fn prev(solid: &Solid, h: HalfEdgeKey) -> HalfEdgeKey {
    solid.half_edge(h).get_prev()
}

/// Builds a chain v0 -> v1 -> v2 by splitting vertices; returns the solid
/// with the half-edges of its single loop in order, starting from v0.
fn chain() -> (Solid, [HalfEdgeKey; 4]) {
    let mut solid = Solid::new();
    let p = solid.new_skeletal_primitive(point(0.0, 0.0, 0.0));
    let first = solid.split_vertex(p.vertex, p.half_edge, p.half_edge, point(1.0, 0.0, 0.0));
    let e1 = *solid.edge(first.edge);
    let second = solid.split_vertex(first.vertex, e1.pos, e1.pos, point(1.0, 1.0, 0.0));
    let e2 = *solid.edge(second.edge);
    (solid, [p.half_edge, e2.neg, e2.pos, e1.pos])
}

#[test]
fn split_face_closes_a_triangle() {
    let (mut solid, [h0, h1, h2, h3]) = chain();
    assert_eq!(next(&solid, h0), h1);
    assert_eq!(next(&solid, h1), h2);
    assert_eq!(next(&solid, h2), h3);
    assert_eq!(next(&solid, h3), h0);
    let old_loop = solid.half_edge(h0).edge_loop.unwrap();
    let old_face = solid.edge_loop(old_loop).face.unwrap();

    // connect v2 (start of h2) with v0 (start of h0)
    let res = solid.split_face(h2, h0);
    let e = *solid.edge(res.edge);
    let (hse, hes) = (e.pos, e.neg);

    // the old loop is the triangle h0, h1, hse
    assert_eq!(next(&solid, h0), h1);
    assert_eq!(next(&solid, h1), hse);
    assert_eq!(next(&solid, hse), h0);
    assert_eq!(prev(&solid, h0), hse);
    assert_eq!(prev(&solid, hse), h1);
    // the new loop is h2, h3, hes
    assert_eq!(next(&solid, h2), h3);
    assert_eq!(next(&solid, h3), hes);
    assert_eq!(next(&solid, hes), h2);
    assert_eq!(prev(&solid, h2), hes);
    assert_eq!(prev(&solid, hes), h3);

    assert_eq!(solid.half_edge(hse).vertex, solid.half_edge(h2).vertex);
    assert_eq!(solid.half_edge(hes).vertex, solid.half_edge(h0).vertex);
    for h in [h0, h1, hse] {
        assert_eq!(solid.half_edge(h).edge_loop, Some(old_loop));
    }
    for h in [h2, h3, hes] {
        assert_eq!(solid.half_edge(h).edge_loop, Some(res.edge_loop));
    }
    assert_eq!(solid.half_edge(hse).edge, Some(res.edge));
    assert_eq!(solid.half_edge(hes).edge, Some(res.edge));

    assert_eq!(solid.edge_loop(old_loop).half_edge, hse);
    assert_eq!(solid.edge_loop(old_loop).face, Some(old_face));
    assert_eq!(solid.edge_loop(res.edge_loop).half_edge, hes);
    assert_eq!(solid.edge_loop(res.edge_loop).face, Some(res.face));
    assert_eq!(solid.face(res.face).outer, res.edge_loop);
    assert!(solid.face(res.face).inner.is_empty());

    // a closed triangle: V - E + F = 3 - 3 + 2 = 2
    assert_eq!(solid.n_vertices(), 3);
    assert_eq!(solid.n_edges(), 3);
    assert_eq!(solid.n_faces(), 2);
    assert_eq!(solid.n_loops(), 2);
    assert_eq!(solid.n_half_edges(), 6);
}

#[test]
fn split_face_at_one_half_edge() {
    let mut solid = Solid::new();
    let p = solid.new_skeletal_primitive(point(0.0, 0.0, 0.0));
    let res = solid.topology_mut().split_face(p.half_edge, p.half_edge);
    let e = *solid.edge(res.edge);
    let (hse, hes) = (e.pos, e.neg);

    // a zero-length half-edge joins the old loop; the new loop holds its twin
    assert_eq!(next(&solid, p.half_edge), hse);
    assert_eq!(next(&solid, hse), p.half_edge);
    assert_eq!(next(&solid, hes), hes);
    assert_eq!(prev(&solid, hes), hes);
    assert_eq!(solid.half_edge(hse).vertex, p.vertex);
    assert_eq!(solid.half_edge(hes).vertex, p.vertex);
    assert_eq!(solid.half_edge(hse).edge_loop, Some(p.edge_loop));
    assert_eq!(solid.half_edge(hes).edge_loop, Some(res.edge_loop));
    assert_eq!(solid.edge_loop(res.edge_loop).face, Some(res.face));
    assert_eq!(solid.vertex(p.vertex).half_edge, Some(hes));

    assert_eq!(solid.n_vertices(), 1);
    assert_eq!(solid.n_edges(), 1);
    assert_eq!(solid.n_faces(), 2);
    assert_eq!(solid.n_loops(), 2);
    assert_eq!(solid.n_half_edges(), 3);
}

#[test]
fn split_ring_from_strut_loop() {
    let mut solid = Solid::new();
    let p = solid.new_skeletal_primitive(point(0.0, 0.0, 0.0));
    let res = solid.split_vertex(p.vertex, p.half_edge, p.half_edge, point(1.0, 0.0, 0.0));
    let e = *solid.edge(res.edge);
    let old_loop = p.edge_loop;

    let new_loop = solid.topology_mut().split_ring_from_loop(res.edge);

    // both sides were empty: each half-edge stays, alone in a loop
    assert_ne!(new_loop, old_loop);
    assert_eq!(next(&solid, e.pos), e.pos);
    assert_eq!(next(&solid, e.neg), e.neg);
    assert_eq!(solid.half_edge(e.pos).edge, None);
    assert_eq!(solid.half_edge(e.neg).edge, None);
    assert_eq!(solid.half_edge(e.neg).edge_loop, Some(new_loop));
    assert_eq!(solid.half_edge(e.pos).edge_loop, Some(old_loop));
    assert_eq!(solid.edge_loop(new_loop).half_edge, e.neg);
    assert_eq!(solid.edge_loop(new_loop).face, None);
    assert_eq!(solid.edge_loop(old_loop).half_edge, e.pos);

    assert_eq!(solid.n_edges(), 0);
    assert_eq!(solid.n_half_edges(), 2);
    assert_eq!(solid.n_loops(), 2);
    assert_eq!(solid.n_vertices(), 2);
    assert_eq!(solid.n_faces(), 1);
}

#[test]
fn split_ring_from_chain_loop() {
    let (mut solid, [h0, h1, h2, h3]) = chain();
    let old_loop = solid.half_edge(h0).edge_loop.unwrap();
    let e2 = solid.half_edge(h1).edge.unwrap();
    assert_eq!(solid.edge(e2).neg, h1);
    assert_eq!(solid.edge(e2).pos, h2);
    let v1 = solid.half_edge(h1).vertex;

    let new_loop = solid.topology_mut().split_ring_from_loop(e2);

    // the side after the positive half-edge (h3, h0) becomes the new loop;
    // the other side was empty, so the positive half-edge stays alone
    assert_eq!(next(&solid, h3), h0);
    assert_eq!(next(&solid, h0), h3);
    assert_eq!(prev(&solid, h3), h0);
    assert_eq!(prev(&solid, h0), h3);
    assert_eq!(next(&solid, h2), h2);
    assert_eq!(solid.half_edge(h0).edge_loop, Some(new_loop));
    assert_eq!(solid.half_edge(h3).edge_loop, Some(new_loop));
    assert_eq!(solid.half_edge(h2).edge_loop, Some(old_loop));
    assert_eq!(solid.half_edge(h2).edge, None);
    assert_eq!(solid.edge_loop(new_loop).half_edge, h3);
    assert_eq!(solid.edge_loop(old_loop).half_edge, h2);
    assert_eq!(solid.vertex(v1).half_edge, None);

    assert_eq!(solid.n_edges(), 1);
    assert_eq!(solid.n_half_edges(), 3);
    assert_eq!(solid.n_loops(), 2);
    assert_eq!(solid.n_vertices(), 3);
}
