use gwb::geometry::point::Point;
use gwb::geometry::surface::PlanarSurface;
use gwb::geometry::vector::Vec3;
use gwb::scalar::{Real, UInteger};
use gwb::topology::{Face, Solid, TopologyWrite, Vertex};

#[test]
fn real_keeps_its_bits() {
    for x in [0.0f64, -0.0, 1.0, -2.5, f64::INFINITY, f64::MIN_POSITIVE] {
        let r = Real::from_bits(x.to_bits());
        assert_eq!(r.to_bits(), x.to_bits());
        assert_eq!(r.bits, x.to_bits());
        assert_eq!(f64::from_bits(r.to_bits()), x);
    }
    assert_ne!(Real::from_bits(0.0f64.to_bits()), Real::from_bits((-0.0f64).to_bits()));
}

#[test]
fn point_new_keeps_coordinates() {
    let x = Real::from_bits(1.0f64.to_bits());
    let y = Real::from_bits(2.0f64.to_bits());
    let z = Real::from_bits(3.0f64.to_bits());
    let p = Point::new(x, y, z);
    assert_eq!(p.x, x);
    assert_eq!(p.y, y);
    assert_eq!(p.z, z);
    assert_eq!(f64::from_bits(p.y.to_bits()), 2.0);
}

#[test]
fn zero_vector_is_zero() {
    let v = Vec3::zero();
    assert_eq!(f64::from_bits(v.x.to_bits()), 0.0);
    assert_eq!(f64::from_bits(v.y.to_bits()), 0.0);
    assert_eq!(f64::from_bits(v.z.to_bits()), 0.0);
    assert_eq!(v.x.to_bits(), 0);
    assert_eq!(v, Vec3::zero());
}

#[test]
fn new_face_has_zero_surface() {
    let mut solid = Solid::new();
    let v = solid.add_vertex(Vertex::new(Point::new(
        Real::from_bits(0),
        Real::from_bits(0),
        Real::from_bits(0),
    )));
    let h = solid.add_half_edge(gwb::topology::HalfEdge::new(v));
    let l = solid.add_edge_loop(gwb::topology::EdgeLoop::new(h));
    let face = Face::new(l);
    assert_eq!(face.outer, l);
    assert!(face.inner.is_empty());
    assert_eq!(face.surface, PlanarSurface { eq: Vec3::zero() });
}

#[test]
fn counts_are_unsigned_integers() {
    let solid = Solid::new();
    let n: UInteger = solid.n_vertices();
    assert_eq!(n, 0);
    assert_eq!(solid.n_half_edges(), 0);
    assert_eq!(solid.n_edges(), 0);
    assert_eq!(solid.n_loops(), 0);
    assert_eq!(solid.n_faces(), 0);
}
