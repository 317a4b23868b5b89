use raytracer::fixed::{Fp, SCALE};
use raytracer::vec3::Vec3;

fn v(x: i128, y: i128, z: i128) -> Vec3 {
    Vec3::new_val(Fp::raw(x), Fp::raw(y), Fp::raw(z))
}

#[test]
fn component_access() {
    let a = v(1, 2, 3);
    assert_eq!(a.x().v, 1);
    assert_eq!(a.y().v, 2);
    assert_eq!(a.z().v, 3);
    assert_eq!(a.get(0).v, 1);
    assert_eq!(a.get(1).v, 2);
    assert_eq!(a.get(2).v, 3);
    let mut b = a;
    b.set(1, Fp::raw(9));
    assert_eq!((b.x.v, b.y.v, b.z.v), (1, 9, 3));
}

#[test]
fn componentwise_arithmetic() {
    let a = v(1_000_000, -2_000_000, 3_000_000);
    let b = v(500_000, 500_000, -500_000);
    let s = a.add(b);
    assert_eq!((s.x.v, s.y.v, s.z.v), (1_500_000, -1_500_000, 2_500_000));
    let d = a.sub(b);
    assert_eq!((d.x.v, d.y.v, d.z.v), (500_000, -2_500_000, 3_500_000));
    let n = a.neg();
    assert_eq!((n.x.v, n.y.v, n.z.v), (-1_000_000, 2_000_000, -3_000_000));
    let h = a.hadamard(b);
    assert_eq!((h.x.v, h.y.v, h.z.v), (500_000, -1_000_000, -1_500_000));
}

#[test]
fn scalar_multiply_both_orders() {
    let a = v(1_000_000, -2_000_000, 3_000_000);
    let k = Fp::raw(2_500_000);
    let left = a.scale(k);
    assert_eq!((left.x.v, left.y.v, left.z.v), (2_500_000, -5_000_000, 7_500_000));
    // scalar * vector and vector * scalar agree
    let mut right = a;
    right.mul_assign(k);
    assert_eq!((right.x.v, right.y.v, right.z.v), (2_500_000, -5_000_000, 7_500_000));
}

#[test]
fn assignment_ops_are_componentwise() {
    let mut a = v(1_000_000, 2_000_000, 3_000_000);
    a.add_assign(v(10, 20, 30));
    assert_eq!((a.x.v, a.y.v, a.z.v), (1_000_010, 2_000_020, 3_000_030));
    let mut b = v(2_000_000, 4_000_000, 6_000_000);
    b.div_assign(Fp::from_int(2));
    assert_eq!((b.x.v, b.y.v, b.z.v), (1_000_000, 2_000_000, 3_000_000));
}

#[test]
fn dot_product() {
    let a = v(1_000_000, 2_000_000, 3_000_000);
    let b = v(4_000_000, -5_000_000, 6_000_000);
    // 4 - 10 + 18 = 12
    assert_eq!(Vec3::dot(&a, &b).v, 12 * SCALE);
}

#[test]
fn cross_product() {
    let a = v(1_000_000, 0, 0);
    let b = v(0, 1_000_000, 0);
    let c = Vec3::cross(&a, &b);
    assert_eq!((c.x.v, c.y.v, c.z.v), (0, 0, 1_000_000));
    let d = Vec3::cross(&b, &a);
    assert_eq!((d.x.v, d.y.v, d.z.v), (0, 0, -1_000_000));
}

#[test]
fn cross_is_orthogonal_to_factors() {
    // an arbitrary skewed pair
    let a = v(1_234_567, -2_345_678, 3_456_789);
    let b = v(-987_654, 876_543, 1_111_111);
    let c = Vec3::cross(&a, &b);
    let da = Vec3::dot(&c, &a).v;
    let db = Vec3::dot(&c, &b).v;
    // within a few rounding steps of exactly zero
    assert!(da.abs() <= 2 * (1_234_567 + 2_345_678 + 3_456_789) / SCALE + 3);
    assert!(db.abs() <= 2 * (987_654 + 876_543 + 1_111_111) / SCALE + 3);
}

#[test]
fn length_of_pythagorean_triple() {
    let a = v(3_000_000, 4_000_000, 0);
    assert_eq!(a.length_squared().v, 25 * SCALE);
    assert_eq!(a.length().v, 5 * SCALE);
}

#[test]
fn unit_vector_has_unit_length() {
    let cases = [
        v(1_000_000, 2_000_000, 3_000_000),
        v(-5_500_000, 1_250_000, 750_000),
        v(10_000_000, 0, 0),
        v(999_999, -999_999, 999_999),
    ];
    let mut idx = 0;
    while idx < cases.len() {
        let u = Vec3::unit_vector(&cases[idx]);
        let len = u.length().v;
        assert!((len - SCALE).abs() <= 10);
        idx += 1;
    }
}
