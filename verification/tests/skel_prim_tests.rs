use gwb::geometry::point::Point;
use gwb::scalar::Real;
use gwb::topology::{Solid, TopologyRead};

fn point(x: f64, y: f64, z: f64) -> Point {
    Point::new(
        Real::from_bits(x.to_bits()),
        Real::from_bits(y.to_bits()),
        Real::from_bits(z.to_bits()),
    )
}

#[test]
fn recognition() {
    let mut solid = Solid::new();
    let mut topol = solid.topology_mut();

    let skel_prim = topol.add_skeletal_primitive(point(0.0, 0.0, 0.0));

    assert!(
        topol.is_skeletal_primitive(skel_prim.face),
        "Solid not recognized as skeletal primitive!"
    );

    assert!(
        solid.n_faces() == 1
            && solid.n_loops() == 1
            && solid.n_edges() == 0
            && solid.n_half_edges() == 1
            && solid.n_vertices() == 1,
        "Solid has wrong number of objects!"
    );
}

#[test]
fn identity() {
    let mut solid = Solid::new();
    let mut topol = solid.topology_mut();

    let skel_prim = topol.add_skeletal_primitive(point(0.0, 0.0, 0.0));
    topol.rm_skeletal_primitive(skel_prim.face);

    assert!(
        solid.n_faces() == 0
            && solid.n_loops() == 0
            && solid.n_edges() == 0
            && solid.n_half_edges() == 0
            && solid.n_vertices() == 0,
        "Solid not empty!"
    );
}

#[test]
fn skeletal_primitive_links_its_keys() {
    let origin = point(1.5, -2.0, 3.25);
    let mut solid = Solid::new();
    let p = solid.topology_mut().add_skeletal_primitive(origin);

    let vertex = solid.vertex(p.vertex);
    assert_eq!(vertex.coord, origin);
    assert_eq!(vertex.half_edge, Some(p.half_edge));

    let he = solid.half_edge(p.half_edge);
    assert_eq!(he.vertex, p.vertex);
    assert_eq!(he.get_next(), p.half_edge);
    assert_eq!(he.get_prev(), p.half_edge);
    assert_eq!(he.edge, None);
    assert_eq!(he.edge_loop, Some(p.edge_loop));

    let l = solid.edge_loop(p.edge_loop);
    assert_eq!(l.half_edge, p.half_edge);
    assert_eq!(l.face, Some(p.face));

    let f = solid.face(p.face);
    assert_eq!(f.outer, p.edge_loop);
    assert!(f.inner.is_empty());
    assert_eq!(f.surface.eq.x.to_bits(), 0);
    assert_eq!(f.surface.eq.y.to_bits(), 0);
    assert_eq!(f.surface.eq.z.to_bits(), 0);
}

#[test]
fn two_skeletal_primitives_are_apart() {
    let mut solid = Solid::new();
    let mut topol = solid.topology_mut();
    let a = topol.add_skeletal_primitive(point(0.0, 0.0, 0.0));
    let b = topol.add_skeletal_primitive(point(1.0, 0.0, 0.0));
    assert_ne!(a.vertex, b.vertex);
    assert_ne!(a.half_edge, b.half_edge);
    assert_ne!(a.edge_loop, b.edge_loop);
    assert_ne!(a.face, b.face);
    assert!(topol.is_skeletal_primitive(a.face));
    assert!(topol.is_skeletal_primitive(b.face));

    // removing one leaves the other as it was
    topol.rm_skeletal_primitive(a.face);
    assert!(topol.is_skeletal_primitive(b.face));
    assert_eq!(solid.n_vertices(), 1);
    assert_eq!(solid.n_half_edges(), 1);
    assert_eq!(solid.n_loops(), 1);
    assert_eq!(solid.n_faces(), 1);
    assert_eq!(solid.vertex(b.vertex).coord, point(1.0, 0.0, 0.0));
}

#[test]
fn new_skeletal_primitive_on_solid() {
    let mut solid = Solid::new();
    let p = solid.new_skeletal_primitive(point(0.0, 1.0, 0.0));
    assert!(solid.topology().is_skeletal_primitive(p.face));
    assert_eq!(solid.n_vertices(), 1);
    assert_eq!(solid.n_half_edges(), 1);
    assert_eq!(solid.n_loops(), 1);
    assert_eq!(solid.n_faces(), 1);
    assert_eq!(solid.n_edges(), 0);
}

#[test]
fn split_vertex_leaves_no_skeletal_primitive() {
    let mut solid = Solid::new();
    let mut topol = solid.topology_mut();
    let p = topol.add_skeletal_primitive(point(0.0, 0.0, 0.0));
    topol.split_vertex(p.vertex, p.half_edge, p.half_edge, point(1.0, 0.0, 0.0));
    assert!(!topol.is_skeletal_primitive(p.face));
}
