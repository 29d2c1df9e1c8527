use nbody::body::Body;
use nbody::scalar::Scalar;
use nbody::simulation::barnes_hut::quad::Quad;
use nbody::simulation::barnes_hut::tree::BarnesHutTree;
use nbody::vec2::Vec2;

fn s(milli: i64) -> Scalar {
    Scalar::from_milli(milli)
}

fn v(x_milli: i64, y_milli: i64) -> Vec2 {
    Vec2::new(s(x_milli), s(y_milli))
}

fn raw_v(x: i128, y: i128) -> Vec2 {
    Vec2::new(Scalar::from_raw(x), Scalar::from_raw(y))
}

#[test]
fn inserts_new_body_to_tree() {
    let mut tree = BarnesHutTree::new(Quad::new(Vec2::zero(), s(10_000)));
    let first_body = Body::new(v(2_000, 2_000), Vec2::zero(), s(5_000));
    let second_body = Body::new(v(-2_000, -2_000), Vec2::zero(), s(10_000));
    let third_body = Body::new(v(2_000, -2_000), Vec2::zero(), s(8_000));
    let fourth_body = Body::new(v(-2_000, 2_000), Vec2::zero(), s(12_000));
    let fifth_body = Body::new(v(-2_500, 2_500), Vec2::zero(), s(20_000));

    assert!(tree.insert(&first_body));
    assert_eq!(tree.is_external(), true);
    assert_eq!(tree.body(), Some(first_body));

    assert!(tree.insert(&second_body));
    assert_eq!(tree.is_external(), false);
    assert_eq!(tree.body(), Some(first_body.combine(&second_body)));
    assert_eq!(
        tree.body(),
        Some(Body::new(
            raw_v(-6_666_666_666_666_666, -6_666_666_666_666_666),
            Vec2::zero(),
            s(15_000),
        ))
    );
    assert_eq!(tree.northeast().unwrap().is_external(), true);
    assert_eq!(tree.northeast().unwrap().body(), Some(first_body));
    assert_eq!(tree.southwest().unwrap().is_external(), true);
    assert_eq!(tree.southwest().unwrap().body(), Some(second_body));

    assert!(tree.insert(&third_body));
    assert_eq!(tree.is_external(), false);
    assert_eq!(
        tree.body(),
        Some(Body::new(
            raw_v(2_608_695_652_173_913, -11_304_347_826_086_956),
            Vec2::zero(),
            s(23_000),
        ))
    );
    assert_eq!(tree.northeast().unwrap().body(), Some(first_body));
    assert_eq!(tree.southwest().unwrap().body(), Some(second_body));
    assert_eq!(tree.southeast().unwrap().is_external(), true);
    assert_eq!(tree.southeast().unwrap().body(), Some(third_body));

    assert!(tree.insert(&fourth_body));
    assert_eq!(tree.is_external(), false);
    assert_eq!(
        tree.body(),
        Some(Body::new(
            raw_v(-5_142_857_142_857_142, -571_428_571_428_571),
            Vec2::zero(),
            s(35_000),
        ))
    );
    assert_eq!(tree.northwest().unwrap().is_external(), true);
    assert_eq!(tree.northwest().unwrap().body(), Some(fourth_body));

    assert!(tree.insert(&fifth_body));
    assert_eq!(tree.is_external(), false);
    assert_eq!(
        tree.body(),
        Some(Body::new(
            raw_v(-12_363_636_363_636_363, 8_727_272_727_272_727),
            Vec2::zero(),
            s(55_000),
        ))
    );
    assert_eq!(tree.northeast().unwrap().is_external(), true);
    assert_eq!(tree.northeast().unwrap().body(), Some(first_body));
    assert_eq!(tree.southwest().unwrap().is_external(), true);
    assert_eq!(tree.southwest().unwrap().body(), Some(second_body));
    assert_eq!(tree.southeast().unwrap().is_external(), true);
    assert_eq!(tree.southeast().unwrap().body(), Some(third_body));
    assert_eq!(tree.northwest().unwrap().is_external(), false);
    assert_eq!(
        tree.northwest().unwrap().body(),
        Some(Body::new(
            raw_v(-23_125_000_000_000_000, 23_125_000_000_000_000),
            Vec2::zero(),
            s(32_000),
        ))
    );
    assert_eq!(
        tree.northwest().unwrap().southeast().unwrap().is_external(),
        true
    );
    assert_eq!(
        tree.northwest().unwrap().southeast().unwrap().body(),
        Some(fourth_body)
    );
    assert_eq!(
        tree.northwest().unwrap().northwest().unwrap().is_external(),
        true
    );
    assert_eq!(
        tree.northwest().unwrap().northwest().unwrap().body(),
        Some(fifth_body)
    );
}

#[test]
fn updates_force_of_a_body() {
    // An empty tree contributes nothing.
    {
        let tree = BarnesHutTree::new(Quad::new(Vec2::zero(), s(10_000)));
        let mut body = Body::new(v(10_000, 5_000), Vec2::unit(), s(5_000));
        tree.update_force(&mut body);
        assert_eq!(*body.force(), Vec2::zero());
    }
    // A single external body contributes its exact pull.
    {
        let mut tree = BarnesHutTree::new(Quad::new(Vec2::zero(), s(10_000)));
        let source = Body::new(Vec2::zero(), Vec2::zero(), s(10_000));
        assert!(tree.insert(&source));
        let mut body = Body::new(v(10_000, 5_000), Vec2::unit(), s(5_000));
        tree.update_force(&mut body);

        let mut twin = Body::new(v(10_000, 5_000), Vec2::unit(), s(5_000));
        twin.add_force(&source);
        assert_eq!(body.force(), twin.force());
    }
    // A far-away pair is summarized by its aggregate.
    {
        let mut tree = BarnesHutTree::new(Quad::new(v(100_000, 100_000), s(30_000)));
        let b1 = Body::new(v(102_000, 101_000), Vec2::zero(), s(10_000));
        let b2 = Body::new(v(99_000, 98_000), Vec2::zero(), s(8_000));
        assert!(tree.insert(&b1));
        assert!(tree.insert(&b2));
        let mut body = Body::new(v(10_000, 5_000), Vec2::unit(), s(5_000));
        tree.update_force(&mut body);

        let mut twin = Body::new(v(10_000, 5_000), Vec2::unit(), s(5_000));
        twin.add_force(&b1.combine(&b2));
        assert_eq!(body.force(), twin.force());
    }
    // A nearby pair is resolved body by body.
    {
        let mut tree = BarnesHutTree::new(Quad::new(Vec2::zero(), s(30_000)));
        let b1 = Body::new(v(10_000, 8_000), Vec2::zero(), s(10_000));
        let b2 = Body::new(v(5_000, 3_000), Vec2::zero(), s(8_000));
        assert!(tree.insert(&b1));
        assert!(tree.insert(&b2));
        let mut body = Body::new(v(10_000, 5_000), Vec2::unit(), s(5_000));
        tree.update_force(&mut body);

        let mut twin = Body::new(v(10_000, 5_000), Vec2::unit(), s(5_000));
        twin.add_force(&b2);
        twin.add_force(&b1);
        assert_eq!(body.force(), twin.force());
    }
}

#[test]
fn rejects_bodies_no_subdivision_can_separate() {
    let mut tree = BarnesHutTree::new(Quad::new(Vec2::zero(), s(10_000)));
    let a = Body::new(v(1_000, 1_000), Vec2::zero(), s(5_000));
    let twin_position = Body::new(v(1_000, 1_000), Vec2::zero(), s(3_000));

    assert!(tree.insert(&a));
    assert!(!tree.insert(&twin_position));
    // The rejected body is not aggregated.
    assert_eq!(tree.body().unwrap().mass(), s(5_000));
}

#[test]
fn query_skips_a_body_at_the_target_position() {
    let mut tree = BarnesHutTree::new(Quad::new(Vec2::zero(), s(10_000)));
    let source = Body::new(v(1_000, 1_000), Vec2::zero(), s(5_000));
    assert!(tree.insert(&source));

    let mut body = Body::new(v(1_000, 1_000), Vec2::unit(), s(2_000));
    tree.update_force(&mut body);
    assert_eq!(*body.force(), Vec2::zero());
}
