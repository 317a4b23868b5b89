//! Three-component vectors over fixed-point reals.
//!
//! A [`Vec3`] serves interchangeably as a point, a direction, and a color.
//! Its mathematical model is [`V3`], a triple of raw scaled integers, and
//! every operation's contract states the exact model-level result.

use vstd::prelude::*;
use crate::fixed::{
    Fp, SCALE, mag, fmul, fdiv, sqrt_fp, lemma_fmul_mag, lemma_fmul_self_nonneg,
    lemma_fmul_bound, lemma_sdiv_mag, lemma_fmul_close, lemma_sdiv_pos,
};

verus! {

/// The mathematical model of a vector: three raw scaled integers.
pub struct V3 {
    pub x: int,
    pub y: int,
    pub z: int,
}

pub open spec fn v3_zero() -> V3 {
    V3 { x: 0, y: 0, z: 0 }
}

pub open spec fn v3_add(a: V3, b: V3) -> V3 {
    V3 { x: a.x + b.x, y: a.y + b.y, z: a.z + b.z }
}

pub open spec fn v3_sub(a: V3, b: V3) -> V3 {
    V3 { x: a.x - b.x, y: a.y - b.y, z: a.z - b.z }
}

pub open spec fn v3_neg(a: V3) -> V3 {
    V3 { x: -a.x, y: -a.y, z: -a.z }
}

/// Scalar multiple: each component is the fixed-point product with `k`.
pub open spec fn v3_scale(k: int, v: V3) -> V3 {
    V3 { x: fmul(k, v.x), y: fmul(k, v.y), z: fmul(k, v.z) }
}

/// Component-wise (Hadamard) product, used for colors.
pub open spec fn v3_hadamard(a: V3, b: V3) -> V3 {
    V3 { x: fmul(a.x, b.x), y: fmul(a.y, b.y), z: fmul(a.z, b.z) }
}

/// Scalar division: each component divided by `k`.
pub open spec fn v3_divs(v: V3, k: int) -> V3 {
    V3 { x: fdiv(v.x, k), y: fdiv(v.y, k), z: fdiv(v.z, k) }
}

/// Component selection: 0, 1, 2 stand for x, y, z.
pub open spec fn v3_index(v: V3, i: int) -> int {
    if i == 0 {
        v.x
    } else if i == 1 {
        v.y
    } else {
        v.z
    }
}

/// The vector with component `i` replaced by `x`.
pub open spec fn v3_set(v: V3, i: int, x: int) -> V3 {
    if i == 0 {
        V3 { x: x, y: v.y, z: v.z }
    } else if i == 1 {
        V3 { x: v.x, y: x, z: v.z }
    } else {
        V3 { x: v.x, y: v.y, z: x }
    }
}

/// Dot product over fixed-point reals.
pub open spec fn spec_dot(a: V3, b: V3) -> int {
    fmul(a.x, b.x) + fmul(a.y, b.y) + fmul(a.z, b.z)
}

/// Standard 3D cross product over fixed-point reals.
pub open spec fn spec_cross(a: V3, b: V3) -> V3 {
    V3 {
        x: fmul(a.y, b.z) - fmul(a.z, b.y),
        y: fmul(a.z, b.x) - fmul(a.x, b.z),
        z: fmul(a.x, b.y) - fmul(a.y, b.x),
    }
}

pub open spec fn spec_len_sq(v: V3) -> int {
    spec_dot(v, v)
}

pub open spec fn spec_len(v: V3) -> int {
    sqrt_fp(spec_len_sq(v))
}

/// The unit vector in the direction of `v`: `v` divided by its length.
pub open spec fn spec_unit(v: V3) -> V3 {
    v3_divs(v, spec_len(v))
}

/// The component-wise sums stay within the raw integer range.
pub open spec fn add_fits(a: V3, b: V3) -> bool {
    &&& i128::MIN <= a.x + b.x <= i128::MAX
    &&& i128::MIN <= a.y + b.y <= i128::MAX
    &&& i128::MIN <= a.z + b.z <= i128::MAX
}

/// The component-wise differences stay within the raw integer range.
pub open spec fn sub_fits(a: V3, b: V3) -> bool {
    &&& i128::MIN <= a.x - b.x <= i128::MAX
    &&& i128::MIN <= a.y - b.y <= i128::MAX
    &&& i128::MIN <= a.z - b.z <= i128::MAX
}

/// Negation stays within the raw integer range.
pub open spec fn neg_fits(a: V3) -> bool {
    a.x > i128::MIN && a.y > i128::MIN && a.z > i128::MIN
}

/// The paired component products leave room for the sum of three terms.
pub open spec fn dot_fits(a: V3, b: V3) -> bool {
    &&& mag(a.x * b.x) <= i128::MAX / 2
    &&& mag(a.y * b.y) <= i128::MAX / 2
    &&& mag(a.z * b.z) <= i128::MAX / 2
}

/// The scalar products with `k` stay within range.
pub open spec fn scale_fits(k: int, v: V3) -> bool {
    &&& mag(k * v.x) <= i128::MAX / 2
    &&& mag(k * v.y) <= i128::MAX / 2
    &&& mag(k * v.z) <= i128::MAX / 2
}

/// The six cross products of distinct components stay within range.
pub open spec fn cross_fits(a: V3, b: V3) -> bool {
    &&& mag(a.y * b.z) <= i128::MAX / 2
    &&& mag(a.z * b.y) <= i128::MAX / 2
    &&& mag(a.z * b.x) <= i128::MAX / 2
    &&& mag(a.x * b.z) <= i128::MAX / 2
    &&& mag(a.x * b.y) <= i128::MAX / 2
    &&& mag(a.y * b.x) <= i128::MAX / 2
}

/// Each component can be scaled up by `SCALE` for a division.
pub open spec fn divs_fits(v: V3) -> bool {
    &&& i128::MIN < v.x * (SCALE as int) <= i128::MAX
    &&& i128::MIN < v.y * (SCALE as int) <= i128::MAX
    &&& i128::MIN < v.z * (SCALE as int) <= i128::MAX
}

/// Every component has magnitude at most `b`.
pub open spec fn v3_bounded(v: V3, b: int) -> bool {
    mag(v.x) <= b && mag(v.y) <= b && mag(v.z) <= b
}

/// Component bounds make a dot product (and a Hadamard product) safe, and
/// bound its value.
pub proof fn lemma_dot_fits_from_bounds(a: V3, b: V3, ba: int, bb: int)
    requires
        v3_bounded(a, ba),
        v3_bounded(b, bb),
        ba * bb <= i128::MAX / 2,
    ensures
        dot_fits(a, b),
        mag(spec_dot(a, b)) <= 3 * ((ba * bb) / (SCALE as int)),
        v3_bounded(v3_hadamard(a, b), (ba * bb) / (SCALE as int)),
{
    lemma_fmul_bound(a.x, b.x, ba, bb);
    lemma_fmul_bound(a.y, b.y, ba, bb);
    lemma_fmul_bound(a.z, b.z, ba, bb);
}

/// Component bounds make a scalar multiple safe, and bound its components.
pub proof fn lemma_scale_fits_from_bounds(k: int, v: V3, bk: int, bv: int)
    requires
        mag(k) <= bk,
        v3_bounded(v, bv),
        bk * bv <= i128::MAX / 2,
    ensures
        scale_fits(k, v),
        v3_bounded(v3_scale(k, v), (bk * bv) / (SCALE as int)),
{
    lemma_fmul_bound(k, v.x, bk, bv);
    lemma_fmul_bound(k, v.y, bk, bv);
    lemma_fmul_bound(k, v.z, bk, bv);
}

/// Component bounds make a scalar division safe, and bound its components.
pub proof fn lemma_divs_fits_from_bounds(v: V3, k: int, m: int)
    requires
        k != 0,
        v3_bounded(v, m),
        0 <= m,
        m * (SCALE as int) <= i128::MAX,
    ensures
        divs_fits(v),
        v3_bounded(v3_divs(v, k), m * (SCALE as int)),
{
    lemma_sdiv_mag(v.x * (SCALE as int), k);
    lemma_sdiv_mag(v.y * (SCALE as int), k);
    lemma_sdiv_mag(v.z * (SCALE as int), k);
}

/// The dot product of a vector with itself is nonnegative.
pub proof fn lemma_dot_self_nonneg(v: V3)
    ensures
        spec_dot(v, v) >= 0,
{
    lemma_fmul_self_nonneg(v.x);
    lemma_fmul_self_nonneg(v.y);
    lemma_fmul_self_nonneg(v.z);
}

/// Facts about one component `x` of a vector divided by its length `l`:
/// the quotient is at most one-and-a-step, and its square brackets the
/// component's contribution to the squared length.
proof fn lemma_unit_component(x: int, l: int, q: int)
    requires
        l >= SCALE as int,
        fmul(x, x) <= q,
        0 <= q,
        q * (SCALE as int) < (l + 1) * (l + 1),
    ensures
        ({
            let u = fdiv(x, l);
            &&& mag(u) <= (SCALE as int) + 1
            &&& (u * u) * (l * l) <= (fmul(x, x) + 1) * 1_000_000_000_000_000_000
            &&& (x * x) * 1_000_000_000_000 < (u * u + 2 * mag(u) + 1) * (l * l)
        }),
{
    let u = fdiv(x, l);
    let qx = fmul(x, x);
    lemma_sdiv_pos(x * (SCALE as int), l);
    lemma_sdiv_pos(x * x, SCALE as int);
    lemma_fmul_self_nonneg(x);
    assert(mag(x * (SCALE as int)) == mag(x) * 1_000_000);
    assert(mag(x) * mag(x) == x * x) by (nonlinear_arith);
    assert(mag(u) * mag(u) == u * u) by (nonlinear_arith);
    // the component itself is below l + 2: its square is below (l + 2)^2
    assert(x * x < (qx + 1) * (SCALE as int));
    assert(x * x < (l + 1) * (l + 1) + 1_000_000);
    assert((l + 1) * (l + 1) + 1_000_000 <= (l + 2) * (l + 2)) by (nonlinear_arith)
        requires
            l >= 1_000_000int,
    ;
    assert(mag(x) < l + 2) by (nonlinear_arith)
        requires
            mag(x) * mag(x) < (l + 2) * (l + 2),
            0 <= mag(x),
            0 <= l,
    ;
    // so the quotient is at most one-and-a-step
    assert(mag(u) * l <= mag(x) * 1_000_000);
    assert(mag(u) <= 1_000_000int + 1) by (nonlinear_arith)
        requires
            mag(u) * l <= mag(x) * 1_000_000int,
            mag(x) <= l + 1,
            l >= 1_000_000int,
            0 <= mag(u),
    ;
    // upper bracket: (mag(u) * l)^2 <= (mag(x) * s)^2 = (x * x) * s^2
    assert((u * u) * (l * l) <= (x * x) * 1_000_000_000_000int) by (nonlinear_arith)
        requires
            0 <= mag(u) * l,
            mag(u) * l <= mag(x) * 1_000_000int,
            mag(x) * mag(x) == x * x,
            mag(u) * mag(u) == u * u,
    ;
    assert((x * x) * 1_000_000_000_000int <= (qx + 1) * 1_000_000_000_000_000_000int)
        by (nonlinear_arith)
        requires
            x * x < (qx + 1) * 1_000_000int,
    ;
    // lower bracket: (mag(x) * s)^2 < ((mag(u) + 1) * l)^2
    assert(mag(x) * 1_000_000 < (mag(u) + 1) * l);
    assert((x * x) * 1_000_000_000_000int < (u * u + 2 * mag(u) + 1) * (l * l))
        by (nonlinear_arith)
        requires
            0 <= mag(x) * 1_000_000int,
            mag(x) * 1_000_000int < (mag(u) + 1) * l,
            mag(x) * mag(x) == x * x,
            mag(u) * mag(u) == u * u,
            0 <= l,
    ;
}

/// The unit vector of any vector of length at least one has length
/// within five raw steps of exactly one.
pub proof fn lemma_unit_vector_length(v: V3)
    requires
        spec_len(v) >= SCALE as int,
    ensures
        mag(spec_len(spec_unit(v)) - (SCALE as int)) <= 5,
{
    let q = spec_len_sq(v);
    let l = spec_len(v);
    lemma_dot_self_nonneg(v);
    lemma_fmul_self_nonneg(v.x);
    lemma_fmul_self_nonneg(v.y);
    lemma_fmul_self_nonneg(v.z);
    crate::fixed::lemma_sqrt_fp_bounds(q);
    assert(l * l <= q * 1_000_000);
    assert(q * 1_000_000 < (l + 1) * (l + 1));
    lemma_unit_component(v.x, l, q);
    lemma_unit_component(v.y, l, q);
    lemma_unit_component(v.z, l, q);
    let u = spec_unit(v);
    assert(u == v3_divs(v, l));
    let sum_u = u.x * u.x + u.y * u.y + u.z * u.z;
    let sum_m = mag(u.x) + mag(u.y) + mag(u.z);
    let big_u = spec_len_sq(u);
    lemma_sdiv_pos(u.x * u.x, SCALE as int);
    lemma_sdiv_pos(u.y * u.y, SCALE as int);
    lemma_sdiv_pos(u.z * u.z, SCALE as int);
    assert(mag(u.x) * mag(u.x) == u.x * u.x && mag(u.y) * mag(u.y) == u.y * u.y && mag(u.z) * mag(
    u.z) == u.z * u.z) by (nonlinear_arith);
    assert(big_u * 1_000_000 <= sum_u && sum_u < big_u * 1_000_000 + 3_000_000);
    // upper bound: big_u is at most five steps above one
    assert(sum_u * (l * l) == (u.x * u.x) * (l * l) + (u.y * u.y) * (l * l) + (u.z * u.z) * (l
        * l)) by (nonlinear_arith)
        requires
            sum_u == u.x * u.x + u.y * u.y + u.z * u.z,
    ;
    assert(sum_u * (l * l) <= (q + 3) * 1_000_000_000_000_000_000);
    assert((big_u * 1_000_000) * (l * l) <= sum_u * (l * l)) by (nonlinear_arith)
        requires
            big_u * 1_000_000int <= sum_u,
            0 <= l,
    ;
    assert((q + 3) * 1_000_000_000_000_000_000 == (q * 1_000_000) * 1_000_000_000_000 + 3
        * 1_000_000_000_000_000_000);
    assert(q * 1_000_000 <= l * l + 2 * l) by (nonlinear_arith)
        requires
            q * 1_000_000int < (l + 1) * (l + 1),
    ;
    assert((big_u * 1_000_000) * (l * l) <= (l * l + 2 * l) * 1_000_000_000_000 + 3
        * 1_000_000_000_000_000_000);
    assert(big_u <= 1_000_000int + 5) by (nonlinear_arith)
        requires
            (big_u * 1_000_000int) * (l * l) <= (l * l + 2 * l) * 1_000_000_000_000int + 3
                * 1_000_000_000_000_000_000int,
            l >= 1_000_000int,
            0 <= big_u,
    ;
    // lower bound: big_u is at most nine steps below one
    assert((v.x * v.x) * 1_000_000_000_000 + (v.y * v.y) * 1_000_000_000_000 + (v.z * v.z)
        * 1_000_000_000_000 < (sum_u + 2 * sum_m + 3) * (l * l)) by (nonlinear_arith)
        requires
            (v.x * v.x) * 1_000_000_000_000int < (u.x * u.x + 2 * mag(u.x) + 1) * (l * l),
            (v.y * v.y) * 1_000_000_000_000int < (u.y * u.y + 2 * mag(u.y) + 1) * (l * l),
            (v.z * v.z) * 1_000_000_000_000int < (u.z * u.z + 2 * mag(u.z) + 1) * (l * l),
            sum_u == u.x * u.x + u.y * u.y + u.z * u.z,
            sum_m == mag(u.x) + mag(u.y) + mag(u.z),
    ;
    lemma_sdiv_pos(v.x * v.x, SCALE as int);
    lemma_sdiv_pos(v.y * v.y, SCALE as int);
    lemma_sdiv_pos(v.z * v.z, SCALE as int);
    assert(mag(v.x) * mag(v.x) == v.x * v.x && mag(v.y) * mag(v.y) == v.y * v.y && mag(v.z) * mag(
    v.z) == v.z * v.z) by (nonlinear_arith);
    assert(q * 1_000_000 <= v.x * v.x + v.y * v.y + v.z * v.z);
    assert((l * l) * 1_000_000_000_000 <= (q * 1_000_000) * 1_000_000_000_000);
    assert((l * l) * 1_000_000_000_000 < (sum_u + 2 * sum_m + 3) * (l * l));
    assert(1_000_000_000_000int < sum_u + 2 * sum_m + 3) by (nonlinear_arith)
        requires
            (l * l) * 1_000_000_000_000int < (sum_u + 2 * sum_m + 3) * (l * l),
            l >= 1_000_000int,
    ;
    assert(sum_m <= 3_000_000int + 3);
    assert(big_u >= 1_000_000int - 9);
    // the squared length sits within a few steps of one, so its root
    // sits within five steps of one
    let lu = spec_len(u);
    lemma_dot_self_nonneg(u);
    crate::fixed::lemma_sqrt_fp_bounds(big_u);
    assert(lu * lu <= big_u * 1_000_000);
    assert(big_u * 1_000_000 < (lu + 1) * (lu + 1));
    assert(lu <= 1_000_000int + 2) by (nonlinear_arith)
        requires
            lu * lu <= big_u * 1_000_000int,
            big_u <= 1_000_000int + 5,
            0 <= lu,
    ;
    assert(lu >= 1_000_000int - 5) by (nonlinear_arith)
        requires
            big_u * 1_000_000int < (lu + 1) * (lu + 1),
            big_u >= 1_000_000int - 9,
            0 <= lu,
    ;
}

/// The scaled dot product of a vector `w` with a cross product whose
/// exact integer counterpart is orthogonal to `w` stays within a few
/// rounding steps of zero.
proof fn lemma_cross_dot_small(a: V3, b: V3, w: V3)
    requires
        (a.y * b.z - a.z * b.y) * w.x + (a.z * b.x - a.x * b.z) * w.y + (a.x * b.y - a.y * b.x)
            * w.z == 0,
    ensures
        (SCALE as int) * mag(spec_dot(spec_cross(a, b), w)) <= 2 * (mag(w.x) + mag(w.y) + mag(w.z))
            + 3 * (SCALE as int),
{
    let sc = SCALE as int;
    let c = spec_cross(a, b);
    let ex = a.y * b.z - a.z * b.y;
    let ey = a.z * b.x - a.x * b.z;
    let ez = a.x * b.y - a.y * b.x;
    lemma_fmul_close(a.y, b.z);
    lemma_fmul_close(a.z, b.y);
    lemma_fmul_close(a.z, b.x);
    lemma_fmul_close(a.x, b.z);
    lemma_fmul_close(a.x, b.y);
    lemma_fmul_close(a.y, b.x);
    let gx = sc * c.x - ex;
    let gy = sc * c.y - ey;
    let gz = sc * c.z - ez;
    assert(mag(gx) < 2 * sc && mag(gy) < 2 * sc && mag(gz) < 2 * sc);
    let t = c.x * w.x + c.y * w.y + c.z * w.z;
    assert(sc * (c.x * w.x) == ex * w.x + gx * w.x) by (nonlinear_arith)
        requires
            sc * c.x == ex + gx,
    ;
    assert(sc * (c.y * w.y) == ey * w.y + gy * w.y) by (nonlinear_arith)
        requires
            sc * c.y == ey + gy,
    ;
    assert(sc * (c.z * w.z) == ez * w.z + gz * w.z) by (nonlinear_arith)
        requires
            sc * c.z == ez + gz,
    ;
    assert(sc * t == sc * (c.x * w.x) + sc * (c.y * w.y) + sc * (c.z * w.z)) by (nonlinear_arith)
        requires
            t == c.x * w.x + c.y * w.y + c.z * w.z,
    ;
    assert(sc * t == gx * w.x + gy * w.y + gz * w.z);
    assert(mag(gx * w.x) <= 2 * sc * mag(w.x) && mag(gy * w.y) <= 2 * sc * mag(w.y) && mag(gz
        * w.z) <= 2 * sc * mag(w.z)) by (nonlinear_arith)
        requires
            mag(gx) <= 2 * sc,
            mag(gy) <= 2 * sc,
            mag(gz) <= 2 * sc,
            sc >= 0,
    ;
    let s3 = mag(w.x) + mag(w.y) + mag(w.z);
    assert(mag(sc * t) <= 2 * sc * s3);
    assert(mag(t) <= 2 * s3) by (nonlinear_arith)
        requires
            mag(sc * t) <= 2 * sc * s3,
            sc >= 1,
            0 <= s3,
    ;
    lemma_fmul_close(c.x, w.x);
    lemma_fmul_close(c.y, w.y);
    lemma_fmul_close(c.z, w.z);
    let d = spec_dot(c, w);
    assert(mag(sc * d - t) < 3 * sc);
    assert(mag(sc * d) <= mag(sc * d - t) + mag(t));
    assert(sc * mag(d) == mag(sc * d)) by (nonlinear_arith)
        requires
            sc > 0,
    ;
    assert(sc * mag(d) <= 2 * s3 + 3 * sc);
}

/// Orthogonality of the cross product: the fixed-point dot product of
/// `cross(a, b)` with either factor lies within a few rounding steps of
/// zero — at most `2 * (|w.x| + |w.y| + |w.z|) / SCALE + 3` raw steps for
/// the factor `w`, stated here multiplied through by `SCALE`.
pub proof fn lemma_cross_orthogonal(a: V3, b: V3)
    ensures
        (SCALE as int) * mag(spec_dot(spec_cross(a, b), a)) <= 2 * (mag(a.x) + mag(a.y) + mag(a.z))
            + 3 * (SCALE as int),
        (SCALE as int) * mag(spec_dot(spec_cross(a, b), b)) <= 2 * (mag(b.x) + mag(b.y) + mag(b.z))
            + 3 * (SCALE as int),
{
    assert((a.y * b.z - a.z * b.y) * a.x + (a.z * b.x - a.x * b.z) * a.y + (a.x * b.y - a.y * b.x)
        * a.z == 0) by (nonlinear_arith);
    assert((a.y * b.z - a.z * b.y) * b.x + (a.z * b.x - a.x * b.z) * b.y + (a.x * b.y - a.y * b.x)
        * b.z == 0) by (nonlinear_arith);
    lemma_cross_dot_small(a, b, a);
    lemma_cross_dot_small(a, b, b);
}

/// A 3-component vector of fixed-point reals; also used for points and colors.
#[derive(Clone, Copy, PartialEq, Eq, Structural, Debug)]
pub struct Vec3 {
    pub x: Fp,
    pub y: Fp,
    pub z: Fp,
}

impl View for Vec3 {
    type V = V3;

    open spec fn view(&self) -> V3 {
        V3 { x: self.x@, y: self.y@, z: self.z@ }
    }
}

impl Vec3 {
    /// The zero vector.
    pub fn new() -> (r: Vec3)
        ensures
            r@ == v3_zero(),
    {
        Vec3 { x: Fp::raw(0), y: Fp::raw(0), z: Fp::raw(0) }
    }

    /// A vector from three components.
    pub fn new_val(e0: Fp, e1: Fp, e2: Fp) -> (r: Vec3)
        ensures
            r@ == (V3 { x: e0@, y: e1@, z: e2@ }),
    {
        Vec3 { x: e0, y: e1, z: e2 }
    }

    /// First component.
    pub fn x(&self) -> (r: Fp)
        ensures
            r@ == self@.x,
    {
        self.x
    }

    /// Second component.
    pub fn y(&self) -> (r: Fp)
        ensures
            r@ == self@.y,
    {
        self.y
    }

    /// Third component.
    pub fn z(&self) -> (r: Fp)
        ensures
            r@ == self@.z,
    {
        self.z
    }

    /// Indexed component access for generic loops: 0, 1, 2 are x, y, z.
    pub fn get(&self, i: usize) -> (r: Fp)
        requires
            i < 3,
        ensures
            r@ == v3_index(self@, i as int),
    {
        if i == 0 {
            self.x
        } else if i == 1 {
            self.y
        } else {
            self.z
        }
    }

    /// Indexed component update: the mutable counterpart of [`Vec3::get`].
    pub fn set(&mut self, i: usize, value: Fp)
        requires
            i < 3,
        ensures
            final(self)@ == v3_set(old(self)@, i as int, value@),
    {
        if i == 0 {
            self.x = value;
        } else if i == 1 {
            self.y = value;
        } else {
            self.z = value;
        }
    }

    /// Component-wise sum.
    pub fn add(self, rhs: Vec3) -> (r: Vec3)
        requires
            add_fits(self@, rhs@),
        ensures
            r@ == v3_add(self@, rhs@),
    {
        Vec3 { x: self.x.add(rhs.x), y: self.y.add(rhs.y), z: self.z.add(rhs.z) }
    }

    /// Component-wise difference.
    pub fn sub(self, rhs: Vec3) -> (r: Vec3)
        requires
            sub_fits(self@, rhs@),
        ensures
            r@ == v3_sub(self@, rhs@),
    {
        Vec3 { x: self.x.sub(rhs.x), y: self.y.sub(rhs.y), z: self.z.sub(rhs.z) }
    }

    /// Component-wise negation.
    pub fn neg(self) -> (r: Vec3)
        requires
            neg_fits(self@),
        ensures
            r@ == v3_neg(self@),
    {
        Vec3 { x: self.x.neg(), y: self.y.neg(), z: self.z.neg() }
    }

    /// Scalar multiple; scalar-times-vector and vector-times-scalar agree
    /// by definition.
    pub fn scale(self, k: Fp) -> (r: Vec3)
        requires
            scale_fits(k@, self@),
        ensures
            r@ == v3_scale(k@, self@),
    {
        Vec3 { x: k.mul(self.x), y: k.mul(self.y), z: k.mul(self.z) }
    }

    /// Component-wise (Hadamard) product, used for colors.
    pub fn hadamard(self, rhs: Vec3) -> (r: Vec3)
        requires
            dot_fits(self@, rhs@),
        ensures
            r@ == v3_hadamard(self@, rhs@),
    {
        Vec3 { x: self.x.mul(rhs.x), y: self.y.mul(rhs.y), z: self.z.mul(rhs.z) }
    }

    /// Scalar division.
    pub fn div_scalar(self, k: Fp) -> (r: Vec3)
        requires
            k@ != 0,
            k@ > i128::MIN,
            divs_fits(self@),
        ensures
            r@ == v3_divs(self@, k@),
    {
        Vec3 { x: self.x.div(k), y: self.y.div(k), z: self.z.div(k) }
    }

    /// Dot product.
    pub fn dot(lhs: &Vec3, rhs: &Vec3) -> (r: Fp)
        requires
            dot_fits(lhs@, rhs@),
        ensures
            r@ == spec_dot(lhs@, rhs@),
    {
        let t0: Fp = lhs.x.mul(rhs.x);
        let t1: Fp = lhs.y.mul(rhs.y);
        let t2: Fp = lhs.z.mul(rhs.z);
        proof {
            lemma_fmul_mag(lhs@.x, rhs@.x, i128::MAX / 2);
            lemma_fmul_mag(lhs@.y, rhs@.y, i128::MAX / 2);
            lemma_fmul_mag(lhs@.z, rhs@.z, i128::MAX / 2);
        }
        t0.add(t1).add(t2)
    }

    /// Cross product.
    pub fn cross(lhs: &Vec3, rhs: &Vec3) -> (r: Vec3)
        requires
            cross_fits(lhs@, rhs@),
        ensures
            r@ == spec_cross(lhs@, rhs@),
    {
        proof {
            lemma_fmul_mag(lhs@.y, rhs@.z, i128::MAX / 2);
            lemma_fmul_mag(lhs@.z, rhs@.y, i128::MAX / 2);
            lemma_fmul_mag(lhs@.z, rhs@.x, i128::MAX / 2);
            lemma_fmul_mag(lhs@.x, rhs@.z, i128::MAX / 2);
            lemma_fmul_mag(lhs@.x, rhs@.y, i128::MAX / 2);
            lemma_fmul_mag(lhs@.y, rhs@.x, i128::MAX / 2);
        }
        Vec3 {
            x: lhs.y.mul(rhs.z).sub(lhs.z.mul(rhs.y)),
            y: lhs.z.mul(rhs.x).sub(lhs.x.mul(rhs.z)),
            z: lhs.x.mul(rhs.y).sub(lhs.y.mul(rhs.x)),
        }
    }

    /// Squared length: the dot product of the vector with itself.
    pub fn length_squared(&self) -> (r: Fp)
        requires
            dot_fits(self@, self@),
        ensures
            r@ == spec_len_sq(self@),
            r@ >= 0,
    {
        proof {
            lemma_dot_self_nonneg(self@);
        }
        Vec3::dot(self, self)
    }

    /// Length: the fixed-point square root of the squared length.
    pub fn length(&self) -> (r: Fp)
        requires
            dot_fits(self@, self@),
        ensures
            r@ == spec_len(self@),
            r@ >= 0,
    {
        let sq: Fp = self.length_squared();
        proof {
            lemma_fmul_mag(self@.x, self@.x, i128::MAX / 2);
            lemma_fmul_mag(self@.y, self@.y, i128::MAX / 2);
            lemma_fmul_mag(self@.z, self@.z, i128::MAX / 2);
            assert(sq@ * (SCALE as int) <= u128::MAX) by (nonlinear_arith)
                requires
                    0 <= sq@ <= 3 * (i128::MAX / 2) / (SCALE as int),
            ;
        }
        sq.sqrt()
    }

    /// The unit vector in the direction of `v`.
    pub fn unit_vector(v: &Vec3) -> (r: Vec3)
        requires
            dot_fits(v@, v@),
            spec_len(v@) != 0,
            divs_fits(v@),
        ensures
            r@ == spec_unit(v@),
    {
        let len: Fp = v.length();
        v.div_scalar(len)
    }

    /// In-place component-wise sum.
    pub fn add_assign(&mut self, rhs: Vec3)
        requires
            add_fits(old(self)@, rhs@),
        ensures
            final(self)@ == v3_add(old(self)@, rhs@),
    {
        *self = self.add(rhs);
    }

    /// In-place scalar multiple.
    pub fn mul_assign(&mut self, k: Fp)
        requires
            scale_fits(k@, old(self)@),
        ensures
            final(self)@ == v3_scale(k@, old(self)@),
    {
        *self = self.scale(k);
    }

    /// In-place scalar division.
    pub fn div_assign(&mut self, k: Fp)
        requires
            k@ != 0,
            k@ > i128::MIN,
            divs_fits(old(self)@),
        ensures
            final(self)@ == v3_divs(old(self)@, k@),
    {
        *self = self.div_scalar(k);
    }
}

} // verus!
