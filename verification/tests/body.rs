use nbody::body::Body;
use nbody::scalar::Scalar;
use nbody::vec2::Vec2;

fn s(milli: i64) -> Scalar {
    Scalar::from_milli(milli)
}

fn v(x_milli: i64, y_milli: i64) -> Vec2 {
    Vec2::new(s(x_milli), s(y_milli))
}

#[test]
fn updates_by_delta_time() {
    let mut body = Body::new(v(10_000, 9_000), Vec2::unit(), s(10_000));
    body.force = v(10_000, 8_000);

    body.update(s(160));

    assert_eq!(*body.velocity(), v(1_160, 1_128));
    assert_eq!(
        *body.pos(),
        Vec2::new(
            Scalar::from_raw(101_856_000_000_000_000),
            Scalar::from_raw(91_804_800_000_000_000),
        )
    );
}

#[test]
fn adds_force_from_another_body() {
    let mut first_body = Body::new(v(10_000, 9_000), Vec2::unit(), s(10_000));
    let second_body = Body::new(v(7_000, 2_000), Vec2::unit(), s(12_000));
    let third_body = Body::new(v(3_000, 1_000), Vec2::unit(), s(2_000));

    first_body.add_force(&second_body);
    assert_eq!(
        *first_body.force(),
        Vec2::new(Scalar::from_raw(543_941), Scalar::from_raw(1_269_195))
    );

    first_body.add_force(&third_body);
    assert_eq!(
        *first_body.force(),
        Vec2::new(Scalar::from_raw(621_726), Scalar::from_raw(1_358_093))
    );
}

#[test]
fn resets_its_force() {
    let mut body = Body::new(Vec2::unit(), Vec2::unit(), s(10_000));
    body.force = v(10_000, 8_000);

    body.reset_force();

    assert_eq!(*body.force(), Vec2::zero());
}

#[test]
fn mass_stays_fixed_through_motion() {
    let mut body = Body::new(v(1_000, 2_000), Vec2::unit(), s(7_000));
    body.force = v(3_000, -2_000);
    body.update(s(250));
    assert_eq!(body.mass(), s(7_000));
}
