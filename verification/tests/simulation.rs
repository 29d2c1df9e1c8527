use nbody::body::Body;
use nbody::scalar::Scalar;
use nbody::simulation::barnes_hut::quad::Quad;
use nbody::simulation::barnes_hut::tree::BarnesHutTree;
use nbody::simulation::barnes_hut::BarnesHut;
use nbody::simulation::brute_force::BruteForce;
use nbody::simulation::Simulation;
use nbody::vec2::Vec2;

fn s(milli: i64) -> Scalar {
    Scalar::from_milli(milli)
}

fn v(x_milli: i64, y_milli: i64) -> Vec2 {
    Vec2::new(s(x_milli), s(y_milli))
}

fn raw_v(x: i128, y: i128) -> Vec2 {
    Vec2::new(Scalar::from_raw(x), Scalar::from_raw(y))
}

#[test]
fn calculates_next_state() {
    let mut simulation = BruteForce::new();

    let body_1 = Body::new(v(10_000, 9_000), Vec2::unit(), s(10_000));
    let body_2 = Body::new(v(7_000, 2_000), Vec2::unit(), s(12_000));
    let body_3 = Body::new(v(5_000, 7_000), v(2_000, 1_500), s(8_000));

    let mut bodies = vec![body_1, body_2, body_3];

    simulation.step(&mut bodies, s(500));

    assert_eq!(
        bodies.iter().map(|b| *b.force()).collect::<Vec<Vec2>>(),
        vec![
            raw_v(2_253_382, 1_952_971),
            raw_v(276_590, -3_320_524),
            raw_v(-2_529_972, 1_367_553),
        ]
    );

    assert_eq!(
        bodies.iter().map(|b| *b.velocity()).collect::<Vec<Vec2>>(),
        vec![
            raw_v(10_000_000_000_112_669, 10_000_000_000_097_648),
            raw_v(10_000_000_000_011_524, 9_999_999_999_861_645),
            raw_v(19_999_999_999_841_877, 15_000_000_000_085_472),
        ]
    );

    assert_eq!(
        bodies.iter().map(|b| *b.pos()).collect::<Vec<Vec2>>(),
        vec![
            raw_v(105_000_000_000_056_334, 95_000_000_000_048_824),
            raw_v(75_000_000_000_005_762, 24_999_999_999_930_822),
            raw_v(59_999_999_999_920_938, 77_500_000_000_042_736),
        ]
    );
}

#[test]
fn barnes_hut_step_matches_manual_tree_pass() {
    let quad = Quad::new(Vec2::zero(), s(40_000));
    let mut simulation = BarnesHut::new(quad);

    let body_1 = Body::new(v(10_000, 9_000), Vec2::unit(), s(10_000));
    let body_2 = Body::new(v(7_000, 2_000), Vec2::unit(), s(12_000));
    let body_3 = Body::new(v(-5_000, 7_000), v(2_000, 1_500), s(8_000));

    let mut bodies = vec![body_1, body_2, body_3];
    simulation.step(&mut bodies, s(500));

    let mut tree = BarnesHutTree::new(quad);
    assert!(tree.insert(&body_1));
    assert!(tree.insert(&body_2));
    assert!(tree.insert(&body_3));
    for (given, expected) in bodies.iter().zip([body_1, body_2, body_3]) {
        let mut twin = expected;
        twin.reset_force();
        tree.update_force(&mut twin);
        twin.update(s(500));
        assert_eq!(*given, twin);
    }
}

#[test]
fn barnes_hut_leaves_bodies_outside_the_region_untouched() {
    let quad = Quad::new(Vec2::zero(), s(10_000));
    let mut simulation = BarnesHut::new(quad);

    let inside_1 = Body::new(v(1_000, 1_000), Vec2::unit(), s(10_000));
    let inside_2 = Body::new(v(-2_000, -1_000), Vec2::unit(), s(12_000));
    let outside = Body::new(v(90_000, 90_000), v(3_000, -4_000), s(8_000));

    let mut bodies = vec![inside_1, outside, inside_2];
    simulation.step(&mut bodies, s(250));

    assert_eq!(bodies[1], outside);
    assert_ne!(bodies[0], inside_1);
    assert_ne!(bodies[2], inside_2);
}
