use nbody::body::Body;
use nbody::scalar::Scalar;
use nbody::simulation::barnes_hut::quad::Quad;
use nbody::simulation::barnes_hut::tree::BarnesHutTree;
use nbody::vec2::Vec2;

fn s(milli: i64) -> Scalar {
    Scalar::from_milli(milli)
}

fn v(x_milli: i64, y_milli: i64) -> Vec2 {
    Vec2::new(s(x_milli), s(y_milli))
}

fn neg(v: &Vec2) -> Vec2 {
    Vec2::new(v.x().neg(), v.y().neg())
}

#[test]
fn pairwise_forces_are_equal_and_opposite() {
    let mut a = Body::new(v(10_000, 9_000), Vec2::unit(), s(10_000));
    let mut b = Body::new(v(7_000, 2_000), Vec2::unit(), s(12_000));
    let b_snapshot = b;
    let a_snapshot = a;

    a.add_force(&b_snapshot);
    b.add_force(&a_snapshot);

    assert_eq!(*a.force(), neg(b.force()));
    assert_ne!(*a.force(), Vec2::zero());
}

#[test]
fn combine_is_order_independent() {
    let a = Body::new(v(10_000, 9_000), v(1_000, -2_000), s(10_000));
    let b = Body::new(v(7_000, 2_000), v(-3_000, 4_000), s(12_000));

    let ab = a.combine(&b);
    let ba = b.combine(&a);
    assert_eq!(ab.mass(), ba.mass());
    assert_eq!(*ab.pos(), *ba.pos());
}

#[test]
fn root_aggregate_is_insertion_order_independent() {
    let bodies = [
        Body::new(v(2_000, 2_000), Vec2::zero(), s(5_000)),
        Body::new(v(-2_000, -2_000), Vec2::zero(), s(10_000)),
        Body::new(v(2_000, -2_000), Vec2::zero(), s(8_000)),
        Body::new(v(-2_500, 2_500), Vec2::zero(), s(20_000)),
    ];
    let quad = Quad::new(Vec2::zero(), s(10_000));

    let mut forward = BarnesHutTree::new(quad);
    for b in bodies.iter() {
        assert!(forward.insert(b));
    }
    let mut backward = BarnesHutTree::new(quad);
    for b in bodies.iter().rev() {
        assert!(backward.insert(b));
    }

    let fa = forward.body().unwrap();
    let ba = backward.body().unwrap();
    assert_eq!(fa.mass(), ba.mass());
    assert_eq!(*fa.pos(), *ba.pos());
}

#[test]
fn exact_threshold_matches_brute_force() {
    let bodies = [
        Body::new(v(10_000, 9_000), Vec2::unit(), s(10_000)),
        Body::new(v(7_000, 2_000), Vec2::unit(), s(12_000)),
        Body::new(v(-5_000, 7_000), v(2_000, 1_500), s(8_000)),
        Body::new(v(-11_000, -6_000), Vec2::zero(), s(4_000)),
    ];
    let mut tree = BarnesHutTree::new(Quad::new(Vec2::zero(), s(40_000)));
    for b in bodies.iter() {
        assert!(tree.insert(b));
    }

    for (i, b) in bodies.iter().enumerate() {
        let mut approx = *b;
        approx.reset_force();
        tree.update_force_with(&mut approx, Scalar::from_raw(0));

        let mut exact = *b;
        exact.reset_force();
        for (j, other) in bodies.iter().enumerate() {
            if i != j {
                exact.add_force(other);
            }
        }
        assert_eq!(approx.force(), exact.force());
    }
}

fn assert_same_tree(a: &BarnesHutTree, b: &BarnesHutTree) {
    assert_eq!(a.is_external(), b.is_external());
    assert_eq!(a.body(), b.body());
    for (ca, cb) in [
        (a.northwest(), b.northwest()),
        (a.northeast(), b.northeast()),
        (a.southwest(), b.southwest()),
        (a.southeast(), b.southeast()),
    ] {
        assert_eq!(ca.is_some(), cb.is_some());
        if let (Some(ta), Some(tb)) = (ca, cb) {
            assert_same_tree(ta, tb);
        }
    }
}

#[test]
fn rebuilding_from_the_same_bodies_gives_identical_trees() {
    let bodies = [
        Body::new(v(2_000, 2_000), Vec2::zero(), s(5_000)),
        Body::new(v(-2_000, -2_000), Vec2::zero(), s(10_000)),
        Body::new(v(2_000, -2_000), Vec2::zero(), s(8_000)),
        Body::new(v(-2_000, 2_000), Vec2::zero(), s(12_000)),
        Body::new(v(-2_500, 2_500), Vec2::zero(), s(20_000)),
    ];
    let quad = Quad::new(Vec2::zero(), s(10_000));

    let mut one = BarnesHutTree::new(quad);
    let mut two = BarnesHutTree::new(quad);
    for b in bodies.iter() {
        assert!(one.insert(b));
        assert!(two.insert(b));
    }
    assert_same_tree(&one, &two);
}

#[test]
fn gravity_follows_the_inverse_square_law() {
    // Masses 1000 and 1000 at distance 2 under G = 6.67408e-11:
    // F = G * 1000 * 1000 / 4, split over the axis direction.
    let mut a = Body::new(v(2_000, 0), Vec2::zero(), s(1_000_000));
    let b = Body::new(Vec2::zero(), Vec2::zero(), s(1_000_000));
    a.add_force(&b);
    // G * 1e6 / 4 = 1.66852e-5 = 166_852_000_000 raw units.
    assert_eq!(*a.force(), Vec2::new(Scalar::from_raw(166_852_000_000), Scalar::from_raw(0)));
}
