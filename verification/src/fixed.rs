//! Fixed-point real arithmetic.
//!
//! A real number is carried as an `i128` holding the real value scaled by
//! [`SCALE`]. Multiplication and division rescale their result and round
//! toward zero; the square root rounds down. Every operation's contract
//! states the exact integer it returns, so the geometry built on top can
//! be specified without any appeal to machine floating point.

use vstd::prelude::*;
use vstd::arithmetic::div_mod::{
    lemma_fundamental_div_mod, lemma_remainder, lemma_div_is_ordered, lemma_div_nonincreasing,
};

verus! {

/// Raw integer steps per whole unit: a stored value `v` stands for the
/// real number `v / SCALE`.
pub const SCALE: i128 = 1_000_000;

/// The circle constant scaled by `SCALE`, rounded to the nearest step.
pub const PI_FP: i128 = 3_141_593;

/// One half turn scaled by `SCALE`, the divisor of the degree conversion.
pub const HALF_TURN_DEG: i128 = 180_000_000;

/// Magnitude of a mathematical integer.
pub open spec fn mag(a: int) -> int {
    if a >= 0 {
        a
    } else {
        -a
    }
}

/// Integer division rounding toward zero (the rounding the executable
/// operations use), defined for `b != 0`.
pub open spec fn sdiv(a: int, b: int) -> int {
    if (a >= 0) == (b >= 0) {
        mag(a) / mag(b)
    } else {
        -(mag(a) / mag(b))
    }
}

/// Fixed-point product: the product of the raw values, scaled back down,
/// rounded toward zero.
pub open spec fn fmul(a: int, b: int) -> int {
    sdiv(a * b, SCALE as int)
}

/// Fixed-point quotient: the dividend scaled up before dividing, rounded
/// toward zero.
pub open spec fn fdiv(a: int, b: int) -> int {
    sdiv(a * (SCALE as int), b)
}

/// The largest `r` with `r * r <= x`.
pub open spec fn sqrt_floor(x: nat) -> nat
    decreases x,
{
    if x == 0 {
        0
    } else {
        let s = sqrt_floor((x - 1) as nat);
        if (s + 1) * (s + 1) <= x {
            (s + 1) as nat
        } else {
            s
        }
    }
}

/// Fixed-point square root of a nonnegative raw value: since `v` stands
/// for `v / SCALE`, the root's raw value is `floor(sqrt(v * SCALE))`.
pub open spec fn sqrt_fp(a: int) -> int {
    sqrt_floor((a * (SCALE as int)) as nat) as int
}

/// `sqrt_floor(x)` is indeed the floor of the square root of `x`.
pub proof fn lemma_sqrt_floor_bounds(x: nat)
    ensures
        sqrt_floor(x) * sqrt_floor(x) <= x,
        x < (sqrt_floor(x) + 1) * (sqrt_floor(x) + 1),
    decreases x,
{
    if x == 0 {
        let s0 = sqrt_floor(x);
        assert(s0 == 0);
        assert((s0 + 1) * (s0 + 1) == 1nat) by (nonlinear_arith)
            requires
                s0 == 0nat,
        ;
    } else {
        let s = sqrt_floor((x - 1) as nat);
        lemma_sqrt_floor_bounds((x - 1) as nat);
        assert(s * s <= (x - 1) as nat);
        assert(((x - 1) as nat) < (s + 1) * (s + 1));
        if (s + 1) * (s + 1) <= x {
            assert(sqrt_floor(x) == s + 1);
            assert(x <= (s + 1) * (s + 1));
            assert((s + 1) * (s + 1) < (s + 2) * (s + 2)) by (nonlinear_arith)
                requires
                    s >= 0,
            ;
            assert(x < (sqrt_floor(x) + 1) * (sqrt_floor(x) + 1));
        } else {
            assert(sqrt_floor(x) == s);
            assert(sqrt_floor(x) * sqrt_floor(x) <= x);
            assert(x < (sqrt_floor(x) + 1) * (sqrt_floor(x) + 1));
        }
    }
}

/// Any `r` whose square brackets `x` equals `sqrt_floor(x)`.
pub proof fn lemma_sqrt_floor_unique(x: nat, r: nat)
    requires
        r * r <= x,
        x < (r + 1) * (r + 1),
    ensures
        sqrt_floor(x) == r,
{
    let s = sqrt_floor(x);
    lemma_sqrt_floor_bounds(x);
    if s < r {
        assert((s + 1) * (s + 1) <= r * r) by (nonlinear_arith)
            requires
                s + 1 <= r,
        ;
    }
    if r < s {
        assert((r + 1) * (r + 1) <= s * s) by (nonlinear_arith)
            requires
                r + 1 <= s,
        ;
    }
}

/// Bracketing bounds of the fixed-point square root.
pub proof fn lemma_sqrt_fp_bounds(a: int)
    requires
        a >= 0,
    ensures
        sqrt_fp(a) >= 0,
        sqrt_fp(a) * sqrt_fp(a) <= a * (SCALE as int),
        a * (SCALE as int) < (sqrt_fp(a) + 1) * (sqrt_fp(a) + 1),
{
    vstd::arithmetic::mul::lemma_mul_nonnegative(a, SCALE as int);
    lemma_sqrt_floor_bounds((a * (SCALE as int)) as nat);
}

/// Division toward zero by a positive divisor: bracketing bounds, sign
/// preservation, and shrinking.
pub proof fn lemma_sdiv_pos(a: int, b: int)
    requires
        b > 0,
    ensures
        mag(sdiv(a, b)) * b <= mag(a),
        mag(a) < (mag(sdiv(a, b)) + 1) * b,
        a >= 0 ==> sdiv(a, b) >= 0,
        a <= 0 ==> sdiv(a, b) <= 0,
        mag(sdiv(a, b)) <= mag(a),
        mag(sdiv(a, b)) == mag(a) / b,
{
    let m = mag(a);
    let q = m / b;
    lemma_fundamental_div_mod(m, b);
    lemma_remainder(m, b);
    lemma_div_nonincreasing(m, b);
    assert(b * q == q * b) by (nonlinear_arith);
    assert((q + 1) * b == q * b + b) by (nonlinear_arith);
}

/// Division toward zero is monotone in the dividend, for a positive divisor.
pub proof fn lemma_sdiv_monotone(a1: int, a2: int, b: int)
    requires
        a1 <= a2,
        b > 0,
    ensures
        sdiv(a1, b) <= sdiv(a2, b),
{
    if a1 >= 0 {
        lemma_div_is_ordered(a1, a2, b);
    } else if a2 <= 0 {
        lemma_div_is_ordered(-a2, -a1, b);
    } else {
        lemma_sdiv_pos(a1, b);
        lemma_sdiv_pos(a2, b);
    }
}

/// A bound on both factors bounds a fixed-point product.
pub proof fn lemma_fmul_bound(a: int, b: int, ba: int, bb: int)
    requires
        mag(a) <= ba,
        mag(b) <= bb,
    ensures
        mag(a * b) <= ba * bb,
        mag(fmul(a, b)) <= (ba * bb) / (SCALE as int),
{
    assert(mag(a * b) <= ba * bb) by (nonlinear_arith)
        requires
            mag(a) <= ba,
            mag(b) <= bb,
    ;
    lemma_sdiv_pos(a * b, SCALE as int);
    lemma_div_is_ordered(mag(a * b), ba * bb, SCALE as int);
}

/// A bound on the raw product bounds the rescaled product.
pub proof fn lemma_fmul_mag(a: int, b: int, m: int)
    requires
        mag(a * b) <= m,
    ensures
        mag(fmul(a, b)) <= m / (SCALE as int),
{
    lemma_sdiv_pos(a * b, SCALE as int);
    lemma_div_is_ordered(mag(a * b), m, SCALE as int);
}

/// Division toward zero never grows the magnitude of the dividend.
pub proof fn lemma_sdiv_mag(a: int, b: int)
    requires
        b != 0,
    ensures
        mag(sdiv(a, b)) <= mag(a),
{
    lemma_div_nonincreasing(mag(a), mag(b));
}

/// A fixed-point square is nonnegative.
pub proof fn lemma_fmul_self_nonneg(a: int)
    ensures
        fmul(a, a) >= 0,
{
    assert(a * a >= 0) by (nonlinear_arith);
    lemma_sdiv_pos(a * a, SCALE as int);
}

/// A rescaled product lands within one step of the exact ratio.
pub proof fn lemma_fmul_close(u: int, v: int)
    ensures
        mag((SCALE as int) * fmul(u, v) - u * v) < SCALE as int,
{
    lemma_sdiv_pos(u * v, SCALE as int);
}

/// A fixed-point real: the raw integer `v` stands for the real `v / SCALE`.
#[derive(Clone, Copy, PartialEq, Eq, Structural, Debug)]
pub struct Fp {
    pub v: i128,
}

impl View for Fp {
    type V = int;

    open spec fn view(&self) -> int {
        self.v as int
    }
}

impl Fp {
    /// Wraps a raw scaled integer.
    pub fn raw(v: i128) -> (r: Fp)
        ensures
            r@ == v,
    {
        Fp { v }
    }

    /// The fixed-point image of a small whole number.
    pub fn from_int(n: i32) -> (r: Fp)
        ensures
            r@ == n * (SCALE as int),
    {
        Fp { v: (n as i128) * SCALE }
    }

    /// Exact sum.
    pub fn add(self, rhs: Fp) -> (r: Fp)
        requires
            i128::MIN <= self@ + rhs@ <= i128::MAX,
        ensures
            r@ == self@ + rhs@,
    {
        Fp { v: self.v + rhs.v }
    }

    /// Exact difference.
    pub fn sub(self, rhs: Fp) -> (r: Fp)
        requires
            i128::MIN <= self@ - rhs@ <= i128::MAX,
        ensures
            r@ == self@ - rhs@,
    {
        Fp { v: self.v - rhs.v }
    }

    /// Exact negation.
    pub fn neg(self) -> (r: Fp)
        requires
            self@ > i128::MIN,
        ensures
            r@ == -self@,
    {
        Fp { v: -self.v }
    }

    /// Fixed-point product, rounded toward zero.
    pub fn mul(self, rhs: Fp) -> (r: Fp)
        requires
            i128::MIN < self@ * rhs@ <= i128::MAX,
        ensures
            r@ == fmul(self@, rhs@),
    {
        let p: i128 = self.v * rhs.v;
        let m: u128 = if p < 0 {
            (-p) as u128
        } else {
            p as u128
        };
        let q: u128 = m / (SCALE as u128);
        proof {
            assert(m == mag(p as int));
            lemma_sdiv_pos(p as int, SCALE as int);
        }
        if p < 0 {
            Fp { v: -(q as i128) }
        } else {
            Fp { v: q as i128 }
        }
    }

    /// Fixed-point quotient, rounded toward zero.
    pub fn div(self, rhs: Fp) -> (r: Fp)
        requires
            rhs@ != 0,
            rhs@ > i128::MIN,
            i128::MIN < self@ * (SCALE as int) <= i128::MAX,
        ensures
            r@ == fdiv(self@, rhs@),
    {
        let p: i128 = self.v * SCALE;
        let m: u128 = if p < 0 {
            (-p) as u128
        } else {
            p as u128
        };
        let d: u128 = if rhs.v < 0 {
            (-rhs.v) as u128
        } else {
            rhs.v as u128
        };
        let q: u128 = m / d;
        proof {
            assert(m == mag(p as int));
            assert(d == mag(rhs@));
            lemma_sdiv_pos(p as int, mag(rhs@));
            lemma_div_nonincreasing(m as int, d as int);
        }
        if (p < 0) != (rhs.v < 0) {
            Fp { v: -(q as i128) }
        } else {
            Fp { v: q as i128 }
        }
    }

    /// Fixed-point square root, rounded down.
    pub fn sqrt(self) -> (r: Fp)
        requires
            0 <= self@,
            self@ * (SCALE as int) <= u128::MAX,
        ensures
            r@ == sqrt_fp(self@),
            r@ >= 0,
    {
        let x: u128 = (self.v as u128) * (SCALE as u128);
        let s: u128 = isqrt_u128(x);
        proof {
            lemma_sqrt_floor_unique(x as nat, s as nat);
        }
        Fp { v: s as i128 }
    }
}

/// Converts an angle in degrees to radians: `degrees * pi / 180`.
pub fn degrees_to_radians(degrees: Fp) -> (r: Fp)
    requires
        mag(degrees@) <= 1_000_000_000_000,
    ensures
        r@ == fdiv(fmul(degrees@, PI_FP as int), HALF_TURN_DEG as int),
{
    proof {
        lemma_fmul_bound(degrees@, PI_FP as int, 1_000_000_000_000, PI_FP as int);
        assert(1_000_000_000_000int * (PI_FP as int) / (SCALE as int) * (SCALE as int)
            <= i128::MAX) by (nonlinear_arith)
            requires
                PI_FP == 3_141_593i128,
                SCALE == 1_000_000i128,
        ;
    }
    degrees.mul(Fp::raw(PI_FP)).div(Fp::raw(HALF_TURN_DEG))
}

/// Floor of the square root of an unsigned 128-bit integer, by binary
/// search on the root.
pub fn isqrt_u128(x: u128) -> (r: u128)
    ensures
        r * r <= x,
        x < (r + 1) * (r + 1),
        r <= 18446744073709551615u128,
{
    if x == 0 {
        return 0;
    }
    let mut lo: u128 = 0;
    let mut hi: u128 = 18446744073709551616;
    proof {
        assert((18446744073709551616 as int) * (18446744073709551616 as int) > u128::MAX as int)
            by (nonlinear_arith);
    }
    while hi - lo > 1
        invariant
            lo < hi <= 18446744073709551616,
            lo * lo <= x,
            x < hi * hi,
        decreases hi - lo,
    {
        let mid: u128 = lo + (hi - lo) / 2;
        proof {
            assert(mid * mid <= u128::MAX) by (nonlinear_arith)
                requires
                    0 <= mid <= 18446744073709551615u128,
            ;
        }
        if mid * mid <= x {
            lo = mid;
        } else {
            hi = mid;
        }
    }
    lo
}

} // verus!
