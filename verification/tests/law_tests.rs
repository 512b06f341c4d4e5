use gwb::geometry::point::Point;
use gwb::scalar::Real;
use gwb::topology::{HalfEdgeKey, Solid, TopologyRead};

fn point(x: f64, y: f64, z: f64) -> Point {
    Point::new(
        Real::from_bits(x.to_bits()),
        Real::from_bits(y.to_bits()),
        Real::from_bits(z.to_bits()),
    )
}

/// Vertices - edges + 2 faces - loops.
fn euler_count(solid: &Solid) -> i64 {
    solid.n_vertices() as i64 - solid.n_edges() as i64 + 2 * solid.n_faces() as i64
        - solid.n_loops() as i64
}

/// Checks, for the given half-edges, that each is linked into a cycle of
/// one loop and that each half-edge of an edge ends where its twin starts.
fn check_half_edges(solid: &Solid, hs: &[HalfEdgeKey]) {
    for &h in hs {
        let he = solid.half_edge(h);
        let next = he.get_next();
        let prev = he.get_prev();
        assert_eq!(solid.half_edge(next).get_prev(), h);
        assert_eq!(solid.half_edge(prev).get_next(), h);
        assert_eq!(solid.half_edge(next).edge_loop, he.edge_loop);
        if let Some(e) = he.edge {
            let twin = solid.edge(e).get_twin(h);
            assert_ne!(twin, h);
            assert_eq!(solid.half_edge(twin).edge, Some(e));
            assert_eq!(solid.edge(e).get_twin(twin), h);
            assert_eq!(solid.half_edge(twin).vertex, solid.half_edge(next).vertex);
        }
    }
}

#[test]
fn operators_keep_the_euler_count() {
    let mut solid = Solid::new();
    assert_eq!(euler_count(&solid), 0);

    // a new shell adds two
    let p = solid.new_skeletal_primitive(point(0.0, 0.0, 0.0));
    assert_eq!(euler_count(&solid), 2);
    check_half_edges(&solid, &[p.half_edge]);

    // splitting vertices keeps it
    let first = solid.split_vertex(p.vertex, p.half_edge, p.half_edge, point(1.0, 0.0, 0.0));
    assert_eq!(euler_count(&solid), 2);
    let e1 = *solid.edge(first.edge);
    let second = solid.split_vertex(first.vertex, e1.pos, e1.pos, point(1.0, 1.0, 0.0));
    assert_eq!(euler_count(&solid), 2);
    let e2 = *solid.edge(second.edge);
    check_half_edges(&solid, &[e1.pos, e1.neg, e2.pos, e2.neg]);

    // splitting a face keeps it
    let res = solid.split_face(e2.pos, p.half_edge);
    assert_eq!(euler_count(&solid), 2);
    let e3 = *solid.edge(res.edge);
    check_half_edges(&solid, &[e1.pos, e1.neg, e2.pos, e2.neg, e3.pos, e3.neg]);

    // a second shell adds two more; removing it takes them away
    let q = solid.new_skeletal_primitive(point(5.0, 5.0, 5.0));
    assert_eq!(euler_count(&solid), 4);
    solid.topology_mut().rm_skeletal_primitive(q.face);
    assert_eq!(euler_count(&solid), 2);
    check_half_edges(&solid, &[e1.pos, e1.neg, e2.pos, e2.neg, e3.pos, e3.neg]);
}

#[test]
fn splitting_a_ring_keeps_the_euler_count() {
    let mut solid = Solid::new();
    let p = solid.new_skeletal_primitive(point(0.0, 0.0, 0.0));
    let first = solid.split_vertex(p.vertex, p.half_edge, p.half_edge, point(1.0, 0.0, 0.0));
    let e1 = *solid.edge(first.edge);
    let second = solid.split_vertex(first.vertex, e1.pos, e1.pos, point(1.0, 1.0, 0.0));
    let e2 = *solid.edge(second.edge);
    assert_eq!(euler_count(&solid), 2);
    solid.topology_mut().split_ring_from_loop(second.edge);
    assert_eq!(euler_count(&solid), 2);
    check_half_edges(&solid, &[e1.pos, e1.neg, e2.pos]);
}

#[test]
fn a_wedge_turns_around_its_vertex() {
    // in a fan built by splitting one vertex twice, turning around the
    // vertex from either half-edge meets half-edges at that vertex only
    let mut solid = Solid::new();
    let p = solid.new_skeletal_primitive(point(0.0, 0.0, 0.0));
    let first = solid.split_vertex(p.vertex, p.half_edge, p.half_edge, point(1.0, 0.0, 0.0));
    let second = solid.split_vertex(p.vertex, p.half_edge, p.half_edge, point(0.0, 1.0, 0.0));
    let e1 = *solid.edge(first.edge);
    let e2 = *solid.edge(second.edge);
    let turn = |solid: &Solid, h: HalfEdgeKey| {
        let e = solid.half_edge(h).edge.unwrap();
        let twin = solid.edge(e).get_twin(h);
        solid.half_edge(twin).get_next()
    };
    assert_eq!(turn(&solid, e1.neg), e2.neg);
    assert_eq!(turn(&solid, e2.neg), e1.neg);
    assert_eq!(solid.half_edge(turn(&solid, e1.neg)).vertex, p.vertex);
    check_half_edges(&solid, &[e1.pos, e1.neg, e2.pos, e2.neg]);
}

/// Whether `h` is met walking from the half-edge of the loop it names.
fn on_its_loop(solid: &Solid, h: HalfEdgeKey) -> bool {
    match solid.half_edge(h).edge_loop {
        None => true,
        Some(l) => {
            let start = solid.edge_loop(l).half_edge;
            let mut x = start;
            for _ in 0..=solid.n_half_edges() {
                if x == h {
                    return true;
                }
                x = solid.half_edge(x).get_next();
            }
            false
        }
    }
}

#[test]
fn operators_keep_loops_connected() {
    let mut solid = Solid::new();
    let p = solid.new_skeletal_primitive(point(0.0, 0.0, 0.0));
    let first = solid.split_vertex(p.vertex, p.half_edge, p.half_edge, point(1.0, 0.0, 0.0));
    let e1 = *solid.edge(first.edge);
    let second = solid.split_vertex(first.vertex, e1.pos, e1.pos, point(1.0, 1.0, 0.0));
    let e2 = *solid.edge(second.edge);
    let all = [e1.pos, e1.neg, e2.pos, e2.neg];
    assert!(all.iter().all(|&h| on_its_loop(&solid, h)));

    let res = solid.split_face(e2.pos, p.half_edge);
    let e3 = *solid.edge(res.edge);
    let all = [e1.pos, e1.neg, e2.pos, e2.neg, e3.pos, e3.neg];
    assert!(all.iter().all(|&h| on_its_loop(&solid, h)));

    // a ring split from a fresh chain
    let mut chain = Solid::new();
    let q = chain.new_skeletal_primitive(point(0.0, 0.0, 0.0));
    let a = chain.split_vertex(q.vertex, q.half_edge, q.half_edge, point(1.0, 0.0, 0.0));
    let ea = *chain.edge(a.edge);
    let b = chain.split_vertex(a.vertex, ea.pos, ea.pos, point(2.0, 0.0, 0.0));
    let eb = *chain.edge(b.edge);
    chain.topology_mut().split_ring_from_loop(b.edge);
    assert!([ea.pos, ea.neg, eb.pos].iter().all(|&h| on_its_loop(&chain, h)));
}
