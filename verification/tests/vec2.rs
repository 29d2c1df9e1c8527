use nbody::scalar::Scalar;
use nbody::vec2::Vec2;

fn s(milli: i64) -> Scalar {
    Scalar::from_milli(milli)
}

fn v(x_milli: i64, y_milli: i64) -> Vec2 {
    Vec2::new(s(x_milli), s(y_milli))
}

#[test]
fn creates_new_instance() {
    let vec = Vec2::new(s(42_000), s(16_250));

    assert_eq!(vec.x(), s(42_000));
    assert_eq!(vec.y(), s(16_250));
}

#[test]
fn creates_zero_instance() {
    assert_eq!(Vec2::zero(), v(0, 0));
}

#[test]
fn creates_unit_instance() {
    assert_eq!(Vec2::unit(), v(1_000, 1_000));
}

#[test]
fn multiplies_with_scalar() {
    assert_eq!(v(42_000, 16_250).scale(s(2_000)), v(84_000, 32_500));
}

#[test]
fn multiplies_with_another() {
    assert_eq!(v(42_000, 16_250).mul(v(3_000, 1_500)), v(126_000, 24_375));
}

#[test]
fn divides_by_scalar() {
    assert_eq!(v(42_000, 16_250).div(s(2_000)), v(21_000, 8_125));
}

#[test]
fn subtracts_from_another() {
    assert_eq!(v(42_000, 16_250).sub(v(11_210, 10_020)), v(30_790, 6_230));
}

#[test]
fn adds_with_another() {
    assert_eq!(v(42_000, 16_250).add(v(11_210, 10_020)), v(53_210, 26_270));
}

#[test]
fn calculates_distance() {
    assert_eq!(
        v(42_000, 16_250).dist(&v(11_210, 10_200)),
        Scalar::from_raw(313_787_603_324_286_856)
    );
}
