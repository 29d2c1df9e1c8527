use nbody::scalar::Scalar;
use nbody::simulation::barnes_hut::quad::Quad;
use nbody::vec2::Vec2;

fn s(milli: i64) -> Scalar {
    Scalar::from_milli(milli)
}

fn v(x_milli: i64, y_milli: i64) -> Vec2 {
    Vec2::new(s(x_milli), s(y_milli))
}

#[test]
fn returns_whether_contains_a_point() {
    let node = Quad::new(Vec2::zero(), s(40_000));

    assert!(node.contains(&v(15_000, 15_000)));
    assert!(node.contains(&v(-15_000, 15_000)));
    assert!(node.contains(&v(-15_000, -15_000)));
    assert!(node.contains(&v(20_000, -20_000)));

    assert!(!node.contains(&v(25_000, 15_000)));
    assert!(!node.contains(&v(25_000, 25_000)));
    assert!(!node.contains(&v(-25_000, 15_000)));
    assert!(!node.contains(&v(-25_000, -15_000)));
}

#[test]
fn returns_subdivisions() {
    let node = Quad::new(Vec2::zero(), s(40_000));

    assert_eq!(node.northwest(), Quad::new(v(-10_000, 10_000), s(20_000)));
    assert_eq!(node.northeast(), Quad::new(v(10_000, 10_000), s(20_000)));
    assert_eq!(node.southwest(), Quad::new(v(-10_000, -10_000), s(20_000)));
    assert_eq!(node.southeast(), Quad::new(v(10_000, -10_000), s(20_000)));
}

#[test]
fn containment_is_inclusive_at_boundaries() {
    let node = Quad::new(Vec2::zero(), s(40_000));

    assert!(node.contains(&v(20_000, 0)));
    assert!(node.contains(&v(-20_000, 0)));
    assert!(node.contains(&v(0, 20_000)));
    assert!(node.contains(&v(0, -20_000)));
    assert!(node.contains(&v(20_000, 20_000)));
    assert!(node.contains(&v(-20_000, -20_000)));
}

#[test]
fn subdivisions_tile_the_parent() {
    let node = Quad::new(v(3_000, -5_000), s(8_000));
    let children = [
        node.northwest(),
        node.northeast(),
        node.southwest(),
        node.southeast(),
    ];

    // Shared center: on the boundary of all four children.
    assert!(children.iter().all(|c| c.contains(&v(3_000, -5_000))));
    // Every corner of the parent lands in exactly one child.
    for corner in [
        v(-1_000, -9_000),
        v(7_000, -9_000),
        v(-1_000, -1_000),
        v(7_000, -1_000),
    ] {
        assert!(node.contains(&corner));
        assert_eq!(children.iter().filter(|c| c.contains(&corner)).count(), 1);
    }
    // An interior point away from the midlines lies in exactly one child.
    let p = v(4_500, -6_500);
    assert!(node.contains(&p));
    assert_eq!(children.iter().filter(|c| c.contains(&p)).count(), 1);
    // A point just outside the parent lies in no child.
    let q = v(7_500, -5_000);
    assert!(!node.contains(&q));
    assert!(children.iter().all(|c| !c.contains(&q)));
    // Child sides are half the parent side.
    for c in children.iter() {
        assert_eq!(c.length(), s(4_000));
    }
}
