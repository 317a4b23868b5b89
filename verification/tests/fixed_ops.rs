use raytracer::fixed::{Fp, SCALE, PI_FP, degrees_to_radians, isqrt_u128};

#[test]
fn raw_and_from_int() {
    assert_eq!(Fp::raw(123).v, 123);
    assert_eq!(Fp::from_int(3).v, 3 * SCALE);
    assert_eq!(Fp::from_int(-2).v, -2 * SCALE);
}

#[test]
fn add_sub_neg() {
    let a = Fp::raw(1_500_000);
    let b = Fp::raw(-400_000);
    assert_eq!(a.add(b).v, 1_100_000);
    assert_eq!(a.sub(b).v, 1_900_000);
    assert_eq!(b.neg().v, 400_000);
}

#[test]
fn mul_rounds_toward_zero() {
    // 1.5 * 1.5 = 2.25
    assert_eq!(Fp::raw(1_500_000).mul(Fp::raw(1_500_000)).v, 2_250_000);
    // (-0.000001) * 0.4 = -0.0000004, truncated toward zero to 0
    assert_eq!(Fp::raw(-1).mul(Fp::raw(400_000)).v, 0);
    // (-1.5) * 0.333333 truncates toward zero
    assert_eq!(Fp::raw(-1_500_000).mul(Fp::raw(333_333)).v, -499_999);
}

#[test]
fn div_rounds_toward_zero() {
    // 1 / 3 = 0.333333...
    assert_eq!(Fp::from_int(1).div(Fp::from_int(3)).v, 333_333);
    // -1 / 3 truncates toward zero, not down
    assert_eq!(Fp::from_int(-1).div(Fp::from_int(3)).v, -333_333);
    // 16 / 9, the standard aspect ratio
    assert_eq!(Fp::from_int(16).div(Fp::from_int(9)).v, 1_777_777);
}

#[test]
fn sqrt_exact_values() {
    // sqrt(0.25) = 0.5
    assert_eq!(Fp::raw(250_000).sqrt().v, 500_000);
    // sqrt(4) = 2
    assert_eq!(Fp::from_int(4).sqrt().v, 2 * SCALE);
    assert_eq!(Fp::raw(0).sqrt().v, 0);
    // sqrt(2) rounds down: floor(sqrt(2) * 10^6) = 1414213
    assert_eq!(Fp::from_int(2).sqrt().v, 1_414_213);
}

#[test]
fn isqrt_edges() {
    assert_eq!(isqrt_u128(0), 0);
    assert_eq!(isqrt_u128(1), 1);
    assert_eq!(isqrt_u128(3), 1);
    assert_eq!(isqrt_u128(4), 2);
    assert_eq!(isqrt_u128(u128::MAX), 18_446_744_073_709_551_615);
}

#[test]
fn degrees_half_turn_is_pi() {
    assert_eq!(degrees_to_radians(Fp::from_int(180)).v, PI_FP);
    // 90 * pi / 180 = 1570796.5 raw, truncated toward zero
    assert_eq!(degrees_to_radians(Fp::from_int(90)).v, 1_570_796);
    assert_eq!(degrees_to_radians(Fp::raw(0)).v, 0);
}
