//! Conversion of linear color components to 8-bit output levels.
//!
//! A color is a vector with components conventionally in `[0, 1]`; at
//! output time each component maps to `floor(255.999 * component)`. No
//! clamping to `[0, 255]` is performed: components outside the
//! conventional range produce out-of-range levels, saturating only at
//! the `i32` bounds as the reference's cast does.

use vstd::prelude::*;
use vstd::arithmetic::div_mod::{lemma_fundamental_div_mod, lemma_remainder,
    lemma_fundamental_div_mod_converse_div};
use crate::fixed::{Fp, SCALE, mag};
use crate::vec3::{Vec3, V3, v3_bounded};

verus! {

/// The scaling factor `255.999` as a ratio, and the raw-value divisor it
/// induces: a level is `floor(raw * 255999 / (1000 * SCALE))`.
pub const LEVEL_NUM: i128 = 255_999;

pub const LEVEL_DEN: i128 = 1000 * SCALE;

/// The output level of a raw component: `floor(255.999 * component)`.
pub open spec fn color_level(c: int) -> int {
    (c * (LEVEL_NUM as int)) / (LEVEL_DEN as int)
}

/// The level, saturated at the `i32` bounds.
pub open spec fn color_level_sat(c: int) -> int {
    if color_level(c) > i32::MAX {
        i32::MAX as int
    } else if color_level(c) < i32::MIN {
        i32::MIN as int
    } else {
        color_level(c)
    }
}

/// A component whose scaled numerator stays within the raw integer range.
pub open spec fn level_fits(c: int) -> bool {
    mag(c * (LEVEL_NUM as int)) <= i128::MAX
}

pub open spec fn color_fits(v: V3) -> bool {
    level_fits(v.x) && level_fits(v.y) && level_fits(v.z)
}

/// The output level of one component.
pub fn level8(c: Fp) -> (r: i32)
    requires
        level_fits(c@),
    ensures
        r == color_level_sat(c@),
{
    let n: i128 = c.v * LEVEL_NUM;
    let ghost d: int = LEVEL_DEN as int;
    if n >= 0 {
        let q: u128 = (n as u128) / (LEVEL_DEN as u128);
        proof {
            assert(q == color_level(c@));
        }
        if q > (i32::MAX as u128) {
            i32::MAX
        } else {
            q as i32
        }
    } else {
        let m: u128 = (-n) as u128;
        let k: u128 = (m + ((LEVEL_DEN - 1) as u128)) / (LEVEL_DEN as u128);
        proof {
            lemma_fundamental_div_mod((m + (d - 1)) as int, d);
            lemma_remainder((m + (d - 1)) as int, d);
            let rr = ((m + (d - 1)) as int) % d;
            assert(n == (-(k as int)) * d + (d - 1 - rr)) by (nonlinear_arith)
                requires
                    (m + (d - 1)) as int == d * (k as int) + rr,
                    n == -(m as int),
            ;
            lemma_fundamental_div_mod_converse_div(n as int, d, -(k as int), d - 1 - rr);
            assert(-(k as int) == color_level(c@));
        }
        if k > 2147483648u128 {
            proof {
                assert(color_level(c@) < i32::MIN);
            }
            i32::MIN
        } else {
            let qi: i128 = -(k as i128);
            qi as i32
        }
    }
}

/// The three output levels of a color, in component order.
pub fn color_levels(pixel_color: &Vec3) -> (r: (i32, i32, i32))
    requires
        color_fits(pixel_color@),
    ensures
        r.0 == color_level_sat(pixel_color@.x),
        r.1 == color_level_sat(pixel_color@.y),
        r.2 == color_level_sat(pixel_color@.z),
{
    (level8(pixel_color.x), level8(pixel_color.y), level8(pixel_color.z))
}

/// A bound on every component makes the conversion safe.
pub proof fn lemma_color_fits_from_bounds(v: V3, b: int)
    requires
        v3_bounded(v, b),
        0 <= b,
        b * (LEVEL_NUM as int) <= i128::MAX,
    ensures
        color_fits(v),
{
    assert(mag(v.x * (LEVEL_NUM as int)) <= b * (LEVEL_NUM as int)) by (nonlinear_arith)
        requires
            mag(v.x) <= b,
            0 <= b,
    ;
    assert(mag(v.y * (LEVEL_NUM as int)) <= b * (LEVEL_NUM as int)) by (nonlinear_arith)
        requires
            mag(v.y) <= b,
            0 <= b,
    ;
    assert(mag(v.z * (LEVEL_NUM as int)) <= b * (LEVEL_NUM as int)) by (nonlinear_arith)
        requires
            mag(v.z) <= b,
            0 <= b,
    ;
}

} // verus!
