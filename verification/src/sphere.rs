//! The sphere primitive and its quadratic ray-intersection test.
//!
//! For ray origin `O`, direction `D`, center `C`, radius `r`: with
//! `oc = O - C`, `a = D.D`, `half_b = oc.D`, `c = oc.oc - r*r`, the
//! discriminant `half_b*half_b - a*c` decides whether the ray meets the
//! sphere; the nearer root `(-half_b - sqrt(disc)) / a` is preferred, the
//! farther one tried only when the nearer falls outside the parameter
//! interval.

use vstd::prelude::*;
use crate::fixed::{
    Fp, SCALE, mag, fmul, fdiv, sqrt_fp, lemma_sqrt_fp_bounds, lemma_fmul_bound, lemma_sdiv_pos,
    lemma_fmul_self_nonneg,
};
use crate::vec3::{
    Vec3, V3, v3_zero, v3_sub, v3_divs, spec_dot, spec_len_sq, v3_bounded,
    lemma_dot_fits_from_bounds, lemma_scale_fits_from_bounds, lemma_divs_fits_from_bounds,
    lemma_dot_self_nonneg,
};
use crate::ray::{Ray, RayV, ray_at};
use crate::hit::{HitRecord, HitRecV, spec_front_face, spec_face_normal};

verus! {

/// Largest raw coordinate magnitude the geometry accepts; the quadratic
/// test's intermediate products then stay within `i128`.
pub const COORD_LIMIT: i128 = 1_000_000_000_000;

/// A raw value small enough to serve as a coordinate, a radius, or a ray
/// parameter bound.
pub open spec fn in_range(x: int) -> bool {
    mag(x) <= COORD_LIMIT as int
}

pub open spec fn v3_in_range(v: V3) -> bool {
    v3_bounded(v, COORD_LIMIT as int)
}

pub open spec fn ray_in_range(r: RayV) -> bool {
    v3_in_range(r.orig) && v3_in_range(r.dir)
}

/// The mathematical model of a sphere.
pub struct SphereV {
    pub center: V3,
    pub radius: int,
}

/// A sphere the intersection test accepts: coordinates in range and a
/// nonzero radius (the outward normal divides by the radius).
pub open spec fn sphere_in_range(s: SphereV) -> bool {
    v3_in_range(s.center) && in_range(s.radius) && s.radius != 0
}

/// The parameter at which a ray first meets a sphere within
/// `[t_min, t_max]`, if it does: the quadratic test of the module
/// documentation, preferring the nearer root. A degenerate direction
/// (`a == 0`) yields no hit.
pub open spec fn sphere_hit_t(s: SphereV, r: RayV, t_min: int, t_max: int) -> Option<int> {
    let oc = v3_sub(r.orig, s.center);
    let a = spec_dot(r.dir, r.dir);
    let half_b = spec_dot(oc, r.dir);
    let c = spec_len_sq(oc) - fmul(s.radius, s.radius);
    let disc = fmul(half_b, half_b) - fmul(a, c);
    if disc < 0 || a == 0 {
        None
    } else {
        let sqrtd = sqrt_fp(disc);
        let root1 = fdiv(-half_b - sqrtd, a);
        if t_min <= root1 && root1 <= t_max {
            Some(root1)
        } else {
            let root2 = fdiv(-half_b + sqrtd, a);
            if t_min <= root2 && root2 <= t_max {
                Some(root2)
            } else {
                None
            }
        }
    }
}

/// The record an accepted root `t` produces: the point on the ray, and
/// the outward normal `(p - center) / radius` after orientation fixing.
pub open spec fn sphere_hit_rec(s: SphereV, r: RayV, t: int) -> HitRecV {
    let p = ray_at(r, t);
    let outward = v3_divs(v3_sub(p, s.center), s.radius);
    HitRecV {
        p: p,
        normal: spec_face_normal(r.dir, outward),
        t: t,
        front_face: spec_front_face(r.dir, outward),
    }
}

/// A ray whose origin is the sphere's center always reports a hit: the
/// discriminant cannot be negative there, and the exit root is no
/// farther than the radius. Stated for directions of at least unit
/// length and an interval reaching from zero to the radius.
pub proof fn lemma_hit_from_center(s: SphereV, r: RayV, t_min: int, t_max: int)
    requires
        r.orig == s.center,
        spec_dot(r.dir, r.dir) >= SCALE as int,
        t_min <= 0,
        mag(s.radius) <= t_max,
    ensures
        sphere_hit_t(s, r, t_min, t_max) is Some,
{
    let sc = SCALE as int;
    let oc = v3_sub(r.orig, s.center);
    assert(oc == (crate::vec3::V3 { x: 0, y: 0, z: 0 }));
    let a = spec_dot(r.dir, r.dir);
    assert(fmul(0, r.dir.x) == 0 && fmul(0, r.dir.y) == 0 && fmul(0, r.dir.z) == 0 && fmul(0, 0)
        == 0);
    let half_b = spec_dot(oc, r.dir);
    assert(half_b == 0);
    let m = fmul(s.radius, s.radius);
    lemma_fmul_self_nonneg(s.radius);
    let cq = spec_len_sq(oc) - m;
    assert(cq == -m);
    lemma_sdiv_pos(s.radius * s.radius, sc);
    assert(a * m >= 0) by (nonlinear_arith)
        requires
            a >= 0,
            m >= 0,
    ;
    assert(a * cq == -(a * m)) by (nonlinear_arith)
        requires
            cq == -m,
    ;
    lemma_sdiv_pos(a * m, sc);
    assert(fmul(a, cq) == -fmul(a, m) && fmul(a, m) >= 0);
    let disc = fmul(half_b, half_b) - fmul(a, cq);
    assert(disc == fmul(a, m) && disc >= 0);
    lemma_sqrt_fp_bounds(disc);
    let sq = sqrt_fp(disc);
    let root1 = fdiv(-half_b - sq, a);
    if t_min <= root1 && root1 <= t_max {
    } else {
        let root2 = fdiv(-half_b + sq, a);
        lemma_sdiv_pos(sq * sc, a);
        let q = crate::fixed::sdiv(sq * sc, a);
        assert(root2 == q);
        assert(sq * sc >= 0) by (nonlinear_arith)
            requires
                sq >= 0,
                sc >= 0,
        ;
        assert(disc * sc <= a * m) by {
            assert(mag(disc) * sc <= mag(a * m));
            assert(mag(a * m) == a * m);
        }
        assert(m * sc <= s.radius * s.radius) by {
            assert(mag(m) * sc <= mag(s.radius * s.radius));
            assert(mag(s.radius * s.radius) == s.radius * s.radius) by (nonlinear_arith);
        }
        assert(q <= mag(s.radius)) by (nonlinear_arith)
            requires
                q >= 0,
                a >= sc,
                sc == 1_000_000int,
                q * a <= sq * sc,
                0 <= sq,
                sq * sq <= disc * sc,
                disc * sc <= a * m,
                0 <= m,
                m * sc <= s.radius * s.radius,
                0 <= disc,
    ;
        assert(t_min <= root2 && root2 <= t_max);
    }
}

/// Components of a hit record of an in-range sphere, ray, and parameter
/// are bounded: the point by the reach of the ray, the normal by the
/// scaled division bound.
pub proof fn lemma_hit_rec_bounds(s: SphereV, r: RayV, t: int)
    requires
        sphere_in_range(s),
        ray_in_range(r),
        in_range(t),
    ensures
        v3_bounded(sphere_hit_rec(s, r, t).p, 2_000_000_000_000_000_000),
        v3_bounded(sphere_hit_rec(s, r, t).normal, 2_000_000_000_000_000_000_000_000),
{
    let cl: int = COORD_LIMIT as int;
    let sc: int = SCALE as int;
    let bp: int = cl * cl / sc + cl;
    assert(cl * cl <= i128::MAX / 2 && cl * cl / sc + cl <= 2_000_000_000_000_000_000int && (cl
        * cl / sc + 2 * cl) * sc <= i128::MAX && 0 <= cl * cl / sc + 2 * cl && (cl * cl / sc + 2
        * cl) * sc <= 2_000_000_000_000_000_000_000_000int) by (nonlinear_arith)
        requires
            cl == 1_000_000_000_000int,
            sc == 1_000_000int,
    ;
    lemma_scale_fits_from_bounds(t, r.dir, cl, cl);
    let p = ray_at(r, t);
    assert(v3_bounded(p, bp));
    assert(v3_bounded(v3_sub(p, s.center), bp + cl));
    lemma_divs_fits_from_bounds(v3_sub(p, s.center), s.radius, bp + cl);
}

/// A sphere: center and radius. Immutable geometric primitive.
#[derive(Clone, Copy, PartialEq, Eq, Structural, Debug)]
pub struct Sphere {
    pub center: Vec3,
    pub radius: Fp,
}

impl View for Sphere {
    type V = SphereV;

    open spec fn view(&self) -> SphereV {
        SphereV { center: self.center@, radius: self.radius@ }
    }
}

impl Sphere {
    /// The degenerate sphere at the origin with zero radius.
    pub fn new() -> (r: Sphere)
        ensures
            r@.center == v3_zero(),
            r@.radius == 0,
    {
        Sphere { center: Vec3::new(), radius: Fp::raw(0) }
    }

    /// A sphere from center and radius.
    pub fn new_val(center: Vec3, radius: Fp) -> (r: Sphere)
        ensures
            r@.center == center@,
            r@.radius == radius@,
    {
        Sphere { center, radius }
    }

    /// Tests the ray against the sphere over `[t_min, t_max]`. Returns the
    /// record of the nearest root in the interval, or `None` when the ray
    /// misses; the outcome equals [`sphere_hit_t`] and the record equals
    /// [`sphere_hit_rec`] exactly.
    pub fn hit(&self, r: &Ray, t_min: Fp, t_max: Fp) -> (res: Option<HitRecord>)
        requires
            sphere_in_range(self@),
            ray_in_range(r@),
            in_range(t_min@),
            in_range(t_max@),
        ensures
            match res {
                Option::None => sphere_hit_t(self@, r@, t_min@, t_max@) is None,
                Option::Some(rec) => {
                    &&& sphere_hit_t(self@, r@, t_min@, t_max@) == Some(rec@.t)
                    &&& rec@ == sphere_hit_rec(self@, r@, rec@.t)
                    &&& t_min@ <= rec@.t <= t_max@
                },
            },
    {
        let ghost cl: int = COORD_LIMIT as int;
        let ghost sc: int = SCALE as int;
        let ghost ba: int = 6_000_000_000_000_000_000;
        let ghost bc: int = 13_000_000_000_000_000_000;
        let ghost bd: int = 114_000_000_000_000_000_000_000_000_000_000;
        proof {
            assert(cl * cl <= i128::MAX / 2 && (2 * cl) * cl <= i128::MAX / 2 && (2 * cl) * (2
                * cl) <= i128::MAX / 2) by (nonlinear_arith)
                requires
                    cl == 1_000_000_000_000int,
            ;
        }
        let oc: Vec3 = r.origin().sub(self.center);
        proof {
            assert(v3_bounded(oc@, 2 * cl));
            lemma_dot_fits_from_bounds(r@.dir, r@.dir, cl, cl);
            lemma_dot_fits_from_bounds(oc@, r@.dir, 2 * cl, cl);
            lemma_dot_fits_from_bounds(oc@, oc@, 2 * cl, 2 * cl);
            lemma_dot_self_nonneg(r@.dir);
            lemma_dot_self_nonneg(oc@);
        }
        let a: Fp = r.direction().length_squared();
        let half_b: Fp = Vec3::dot(&oc, &r.direction());
        proof {
            lemma_fmul_bound(self@.radius, self@.radius, cl, cl);
            assert(3 * ((cl * cl) / sc) <= ba && 3 * (((2 * cl) * cl) / sc) <= ba && 3 * (((2 * cl)
                * (2 * cl)) / sc) + (cl * cl) / sc <= bc) by (nonlinear_arith)
                requires
                    cl == 1_000_000_000_000int,
                    sc == 1_000_000int,
                    ba == 6_000_000_000_000_000_000int,
                    bc == 13_000_000_000_000_000_000int,
            ;
            assert(mag(a@) <= ba);
            assert(mag(half_b@) <= ba);
        }
        let c: Fp = oc.length_squared().sub(self.radius.mul(self.radius));
        proof {
            assert(mag(c@) <= bc);
            assert(ba * ba <= i128::MAX && ba * bc <= i128::MAX && ba * ba / sc + ba * bc / sc
                <= bd && bd * sc <= u128::MAX) by (nonlinear_arith)
                requires
                    sc == 1_000_000int,
                    ba == 6_000_000_000_000_000_000int,
                    bc == 13_000_000_000_000_000_000int,
                    bd == 114_000_000_000_000_000_000_000_000_000_000int,
            ;
            lemma_fmul_bound(half_b@, half_b@, ba, ba);
            lemma_fmul_bound(a@, c@, ba, bc);
        }
        let disc: Fp = half_b.mul(half_b).sub(a.mul(c));
        proof {
            assert(mag(disc@) <= bd);
        }

        if disc.v < 0 || a.v == 0 {
            return None;
        }

        proof {
            lemma_sqrt_fp_bounds(disc@);
            assert(sqrt_fp(disc@) <= 11_000_000_000_000_000_000int) by (nonlinear_arith)
                requires
                    sqrt_fp(disc@) >= 0,
                    sqrt_fp(disc@) * sqrt_fp(disc@) <= disc@ * sc,
                    disc@ <= bd,
                    sc == 1_000_000int,
                    bd == 114_000_000_000_000_000_000_000_000_000_000int,
            ;
        }
        let sqrtd: Fp = disc.sqrt();
        let neg_half_b: Fp = half_b.neg();
        let root1: Fp = neg_half_b.sub(sqrtd).div(a);
        if t_min.v <= root1.v && root1.v <= t_max.v {
            let rec: HitRecord = self.make_record(r, root1);
            proof {
                assert(sphere_hit_t(self@, r@, t_min@, t_max@) == Some(root1@));
            }
            return Some(rec);
        }
        let root2: Fp = neg_half_b.add(sqrtd).div(a);
        if t_min.v <= root2.v && root2.v <= t_max.v {
            let rec: HitRecord = self.make_record(r, root2);
            proof {
                assert(sphere_hit_t(self@, r@, t_min@, t_max@) == Some(root2@));
            }
            return Some(rec);
        }
        None
    }

    /// Populates a record for an accepted root.
    fn make_record(&self, r: &Ray, root: Fp) -> (rec: HitRecord)
        requires
            sphere_in_range(self@),
            ray_in_range(r@),
            in_range(root@),
        ensures
            rec@ == sphere_hit_rec(self@, r@, root@),
            rec@.t == root@,
    {
        let ghost cl: int = COORD_LIMIT as int;
        let ghost sc: int = SCALE as int;
        let ghost bp: int = cl * cl / sc + cl;
        proof {
            assert(cl * cl <= i128::MAX / 2 && cl * cl / sc + cl == bp && (bp + cl) * sc
                <= i128::MAX && cl * ((bp + cl) * sc) <= i128::MAX / 2 && 0 <= bp + cl)
                by (nonlinear_arith)
                requires
                    cl == 1_000_000_000_000int,
                    sc == 1_000_000int,
                    bp == cl * cl / sc + cl,
            ;
            lemma_scale_fits_from_bounds(root@, r@.dir, cl, cl);
        }
        let mut rec: HitRecord = HitRecord::new();
        rec.t = root;
        rec.p = r.at(rec.t);
        proof {
            assert(v3_bounded(rec@.p, bp));
            assert(v3_bounded(v3_sub(rec@.p, self@.center), bp + cl));
            lemma_divs_fits_from_bounds(v3_sub(rec@.p, self@.center), self@.radius, bp + cl);
            lemma_dot_fits_from_bounds(
                r@.dir,
                v3_divs(v3_sub(rec@.p, self@.center), self@.radius),
                cl,
                (bp + cl) * sc,
            );
        }
        let outward_normal: Vec3 = rec.p.sub(self.center).div_scalar(self.radius);
        rec.set_face_normal(r, &outward_normal);
        rec
    }
}

} // verus!
