use gwb::geometry::point::Point;
use gwb::scalar::Real;
use gwb::topology::{
    Edge, EdgeLoop, Face, HalfEdge, HalfEdgeNeighbors, Solid, TopologyRead, TopologyWrite, Vertex,
};

fn point(x: f64, y: f64, z: f64) -> Point {
    Point::new(
        Real::from_bits(x.to_bits()),
        Real::from_bits(y.to_bits()),
        Real::from_bits(z.to_bits()),
    )
}

#[test]
fn set_he_neighbors_test() {
    let mut solid = Solid::new();

    let vert = Vertex::new(point(0.0, 0.0, 0.0));
    let vert_key = solid.add_vertex(vert);

    let he = HalfEdge::new(vert_key);
    let he_key = solid.add_half_edge(he);

    let he1 = HalfEdge::new(vert_key);
    let he1_key = solid.add_half_edge(he1);
    let he2 = HalfEdge::new(vert_key);
    let he2_key = solid.add_half_edge(he2);

    let valid_neigh_1 = HalfEdgeNeighbors {
        prev: he_key,
        next: he_key,
    };

    solid.set_he_neighbors(he_key, valid_neigh_1);

    let valid_neigh_2 = HalfEdgeNeighbors {
        prev: he1_key,
        next: he2_key,
    };

    solid.set_he_neighbors(he_key, valid_neigh_2);
}

#[test]
fn set_he_neighbors_sets_them() {
    let mut solid = Solid::new();
    let v = solid.add_vertex(Vertex::new(point(0.0, 0.0, 0.0)));
    let a = solid.add_half_edge(HalfEdge::new(v));
    let b = solid.add_half_edge(HalfEdge::new(v));
    let c = solid.add_half_edge(HalfEdge::new(v));
    solid.set_he_neighbors(a, HalfEdgeNeighbors { prev: b, next: c });
    assert_eq!(solid.half_edge(a).get_prev(), b);
    assert_eq!(solid.half_edge(a).get_next(), c);
    // the others keep their own neighbors
    assert_eq!(solid.half_edge(b).get_next(), b);
    assert_eq!(solid.half_edge(c).get_prev(), c);
}

#[test]
fn added_elements_read_back() {
    let mut solid = Solid::new();
    let origin = point(0.5, 0.25, -1.0);
    let v = solid.add_vertex(Vertex::new(origin));
    assert_eq!(solid.vertex(v).coord, origin);
    assert_eq!(solid.vertex(v).half_edge, None);

    let h = solid.add_half_edge(HalfEdge::new(v));
    // the new half-edge is its own neighbor and becomes its vertex's half-edge
    assert_eq!(solid.half_edge(h).vertex, v);
    assert_eq!(solid.half_edge(h).get_next(), h);
    assert_eq!(solid.half_edge(h).get_prev(), h);
    assert_eq!(solid.half_edge(h).edge, None);
    assert_eq!(solid.half_edge(h).edge_loop, None);
    assert_eq!(solid.vertex(v).half_edge, Some(h));

    let g = solid.add_half_edge(HalfEdge::new(v));
    assert_ne!(g, h);
    let e = solid.add_edge(Edge::new(h, g));
    assert_eq!(solid.edge(e).pos, h);
    assert_eq!(solid.edge(e).neg, g);
    assert_eq!(solid.half_edge(h).edge, Some(e));
    assert_eq!(solid.half_edge(g).edge, Some(e));
    assert_eq!(solid.edge(e).get_twin(h), g);
    assert_eq!(solid.edge(e).get_twin(g), h);

    let l = solid.add_edge_loop(EdgeLoop::new(h));
    assert_eq!(solid.edge_loop(l).half_edge, h);
    assert_eq!(solid.edge_loop(l).face, None);
    assert_eq!(solid.half_edge(h).edge_loop, Some(l));

    let f = solid.add_face(Face::new(l));
    assert_eq!(solid.face(f).outer, l);
    assert_eq!(solid.edge_loop(l).face, Some(f));

    assert_eq!(solid.n_vertices(), 1);
    assert_eq!(solid.n_half_edges(), 2);
    assert_eq!(solid.n_edges(), 1);
    assert_eq!(solid.n_loops(), 1);
    assert_eq!(solid.n_faces(), 1);
}

#[test]
fn removed_elements_come_back_out() {
    let mut solid = Solid::new();
    let origin = point(3.0, 2.0, 1.0);
    let v = solid.add_vertex(Vertex::new(origin));
    let h = solid.add_half_edge(HalfEdge::new(v));
    let g = solid.add_half_edge(HalfEdge::new(v));
    let e = solid.add_edge(Edge::new(h, g));
    let l = solid.add_edge_loop(EdgeLoop::new(h));
    let f = solid.add_face(Face::new(l));

    let face = solid.rm_face(f);
    assert_eq!(face.outer, l);
    assert_eq!(solid.edge_loop(l).face, None);
    assert_eq!(solid.n_faces(), 0);

    let edge_loop = solid.rm_edge_loop(l);
    assert_eq!(edge_loop.half_edge, h);
    assert_eq!(solid.half_edge(h).edge_loop, None);
    assert_eq!(solid.n_loops(), 0);

    let edge = solid.rm_edge(e);
    assert_eq!(edge, Edge::new(h, g));
    assert_eq!(solid.half_edge(h).edge, None);
    assert_eq!(solid.half_edge(g).edge, None);
    assert_eq!(solid.n_edges(), 0);

    let removed = solid.rm_half_edge(g);
    assert_eq!(removed.vertex, v);
    assert_eq!(solid.vertex(v).half_edge, None);
    solid.rm_half_edge(h);
    assert_eq!(solid.n_half_edges(), 0);

    let vertex = solid.rm_vertex(v);
    assert_eq!(vertex.coord, origin);
    assert_eq!(solid.n_vertices(), 0);
}

#[test]
fn mutable_access_writes_through() {
    let mut solid = Solid::new();
    let v = solid.add_vertex(Vertex::new(point(0.0, 0.0, 0.0)));
    solid.vertex_mut(v).coord = point(9.0, 8.0, 7.0);
    assert_eq!(solid.vertex(v).coord, point(9.0, 8.0, 7.0));
    solid.get_vertex(v).coord = point(1.0, 1.0, 1.0);
    assert_eq!(solid.vertex(v).coord, point(1.0, 1.0, 1.0));

    let h = solid.add_half_edge(HalfEdge::new(v));
    let g = solid.add_half_edge(HalfEdge::new(v));
    solid.get_half_edge(h).set_next(g);
    assert_eq!(solid.half_edge(h).get_next(), g);
    solid.get_half_edge(h).set_prev(g);
    assert_eq!(solid.half_edge(h).get_prev(), g);

    let e = solid.add_edge(Edge::new(h, g));
    solid.get_edge(e).pos = g;
    assert_eq!(solid.edge(e).pos, g);

    let l = solid.add_edge_loop(EdgeLoop::new(h));
    solid.get_edge_loop(l).half_edge = g;
    assert_eq!(solid.edge_loop(l).half_edge, g);

    let f = solid.add_face(Face::new(l));
    let l2 = solid.add_edge_loop(EdgeLoop::new(g));
    solid.get_face(f).outer = l2;
    assert_eq!(solid.face(f).outer, l2);
}

#[test]
fn twins_through_their_edge() {
    let mut solid = Solid::new();
    let p = solid.new_skeletal_primitive(point(0.0, 0.0, 0.0));
    assert_eq!(solid.get_he_twin_key(p.half_edge), None);
    assert!(solid.get_he_twin(p.half_edge).is_none());
    assert_eq!(solid.topology().he_twin_key(p.half_edge), None);

    let res = solid.split_vertex(p.vertex, p.half_edge, p.half_edge, point(1.0, 0.0, 0.0));
    let e = *solid.edge(res.edge);
    assert_eq!(solid.get_he_twin_key(e.pos), Some(e.neg));
    assert_eq!(solid.get_he_twin_key(e.neg), Some(e.pos));
    assert_eq!(solid.topology().he_twin_key(e.neg), Some(e.pos));
    assert_eq!(solid.topology().he_twin(e.neg).map(|h| h.vertex), Some(res.vertex));
    assert_eq!(solid.get_he_twin(e.pos).map(|h| h.vertex), Some(p.vertex));

    // writing through the twin changes the twin
    let other = solid.add_vertex(Vertex::new(point(5.0, 5.0, 5.0)));
    solid.topology_mut().he_twin_mut(e.neg).unwrap().vertex = other;
    assert_eq!(solid.half_edge(e.pos).vertex, other);
}

#[test]
fn insert_half_edges_into_a_loop() {
    let mut solid = Solid::new();
    let p = solid.new_skeletal_primitive(point(0.0, 0.0, 0.0));
    let h0 = p.half_edge;
    let a = solid.add_half_edge(HalfEdge::new(p.vertex));
    let b = solid.add_half_edge(HalfEdge::new(p.vertex));

    // h0 alone, then h0 -> a, then b -> h0 -> a
    solid.insert_he_after(a, h0);
    assert_eq!(solid.half_edge(h0).get_next(), a);
    assert_eq!(solid.half_edge(a).get_next(), h0);
    assert_eq!(solid.half_edge(a).get_prev(), h0);
    assert_eq!(solid.half_edge(h0).get_prev(), a);
    assert_eq!(solid.half_edge(a).edge_loop, Some(p.edge_loop));

    solid.topology_mut().insert_he_before(b, h0);
    assert_eq!(solid.half_edge(b).get_next(), h0);
    assert_eq!(solid.half_edge(h0).get_prev(), b);
    assert_eq!(solid.half_edge(a).get_next(), b);
    assert_eq!(solid.half_edge(b).get_prev(), a);
    assert_eq!(solid.half_edge(h0).get_next(), a);
    assert_eq!(solid.half_edge(b).edge_loop, Some(p.edge_loop));

    let c = solid.add_half_edge(HalfEdge::new(p.vertex));
    solid.insert_he_before(c, a);
    assert_eq!(solid.half_edge(h0).get_next(), c);
    assert_eq!(solid.half_edge(c).get_next(), a);
    let d = solid.add_half_edge(HalfEdge::new(p.vertex));
    solid.topology_mut().insert_he_after(d, a);
    assert_eq!(solid.half_edge(a).get_next(), d);
    assert_eq!(solid.half_edge(d).get_next(), b);
    assert_eq!(solid.half_edge(b).get_prev(), d);
}

#[test]
fn set_loop_origin_moves_the_start() {
    let mut solid = Solid::new();
    let p = solid.new_skeletal_primitive(point(0.0, 0.0, 0.0));
    let a = solid.add_half_edge(HalfEdge::new(p.vertex));
    solid.insert_he_after(a, p.half_edge);
    solid.topology_mut().set_loop_origin(p.edge_loop, a);
    assert_eq!(solid.edge_loop(p.edge_loop).half_edge, a);
    assert_eq!(solid.edge_loop(p.edge_loop).face, Some(p.face));
}

#[test]
fn loop_and_neighbor_queries() {
    let mut solid = Solid::new();
    let p = solid.new_skeletal_primitive(point(0.0, 0.0, 0.0));
    let t = solid.topology();
    assert!(!t.solid.he_has_neighbors(p.half_edge));
    assert!(t.solid.edge_loop_is_empty(p.edge_loop));
    let n = t.solid.half_edge(p.half_edge).get_neighbors();
    assert_eq!(n, HalfEdgeNeighbors { next: p.half_edge, prev: p.half_edge });
    assert_eq!(t.solid.half_edge(p.half_edge).neighbors(), n);
    assert_eq!(t.solid.half_edge(p.half_edge).get_edge_loop(), p.edge_loop);
    let res = solid.split_vertex(p.vertex, p.half_edge, p.half_edge, point(1.0, 0.0, 0.0));
    assert!(!solid.edge_loop_is_empty(p.edge_loop));
    assert!(solid.he_has_neighbors(solid.edge(res.edge).pos));
}

#[test]
fn lone_half_edge_inserted_at_itself_stays() {
    let mut solid = Solid::new();
    let p = solid.new_skeletal_primitive(point(0.0, 0.0, 0.0));
    let before = *solid.half_edge(p.half_edge);
    solid.insert_he_before(p.half_edge, p.half_edge);
    assert_eq!(*solid.half_edge(p.half_edge), before);
    solid.topology_mut().insert_he_after(p.half_edge, p.half_edge);
    assert_eq!(*solid.half_edge(p.half_edge), before);
    assert_eq!(solid.n_half_edges(), 1);
}

#[test]
fn insert_before_is_insert_after_the_previous() {
    // two copies of the same loop h0 -> a -> h0; a lone half-edge goes in
    // before h0 in one and after a (the half-edge before h0) in the other
    let build = || {
        let mut solid = Solid::new();
        let p = solid.new_skeletal_primitive(point(0.0, 0.0, 0.0));
        let a = solid.add_half_edge(HalfEdge::new(p.vertex));
        solid.insert_he_after(a, p.half_edge);
        let x = solid.add_half_edge(HalfEdge::new(p.vertex));
        (solid, p.half_edge, a, x)
    };
    let (mut s1, h0, a, x) = build();
    let (mut s2, h0b, ab, xb) = build();
    assert_eq!((h0, a, x), (h0b, ab, xb));
    assert_eq!(s1.half_edge(h0).get_prev(), a);
    s1.insert_he_before(x, h0);
    s2.insert_he_after(x, a);
    for h in [h0, a, x] {
        assert_eq!(*s1.half_edge(h), *s2.half_edge(h));
    }
    assert_eq!(s1.half_edge(a).get_next(), x);
    assert_eq!(s1.half_edge(x).get_next(), h0);
}
