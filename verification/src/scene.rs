//! The scene aggregate: an ordered list of spheres, resolved to the
//! nearest intersection.
//!
//! The traversal keeps a shrinking "closest so far" bound, testing each
//! primitive in insertion order against `[t_min, closest]` and tightening
//! the bound on every hit, so the final record is the globally nearest
//! intersection across all members.

use vstd::prelude::*;
use crate::fixed::{Fp, SCALE, fmul, fdiv, sqrt_fp, lemma_sqrt_fp_bounds, lemma_sdiv_monotone};
use crate::vec3::{v3_sub, spec_dot, spec_len_sq, lemma_dot_self_nonneg};
use crate::ray::{Ray, RayV};
use crate::hit::{HitRecord, HitRecV};
use crate::sphere::{
    Sphere, SphereV, sphere_hit_t, sphere_hit_rec, sphere_in_range, ray_in_range, in_range,
};

verus! {

/// The traversal state after the first `n` spheres: the tightened upper
/// bound and the best record so far.
pub open spec fn scene_hit_prefix(
    objs: Seq<SphereV>,
    n: int,
    r: RayV,
    t_min: int,
    t_max: int,
) -> (int, Option<HitRecV>)
    decreases n,
{
    if n <= 0 {
        (t_max, None::<HitRecV>)
    } else {
        let prev = scene_hit_prefix(objs, n - 1, r, t_min, t_max);
        match sphere_hit_t(objs[n - 1], r, t_min, prev.0) {
            Some(t) => (t, Some(sphere_hit_rec(objs[n - 1], r, t))),
            None => prev,
        }
    }
}

/// The record of the nearest intersection of the ray with any sphere of
/// the scene over `[t_min, t_max]`, if any.
pub open spec fn scene_hit(objs: Seq<SphereV>, r: RayV, t_min: int, t_max: int) -> Option<
    HitRecV,
> {
    scene_hit_prefix(objs, objs.len() as int, r, t_min, t_max).1
}

/// Every sphere of the scene is one the intersection test accepts.
pub open spec fn scene_in_range(objs: Seq<SphereV>) -> bool {
    forall|i: int| 0 <= i < objs.len() ==> sphere_in_range(#[trigger] objs[i])
}

/// The view of an optional record.
pub open spec fn opt_rec_view(o: Option<HitRecord>) -> Option<HitRecV> {
    match o {
        Option::Some(rec) => Option::Some(rec@),
        Option::None => Option::None,
    }
}

/// Narrowing the upper bound of the interval only discards hits beyond
/// the narrowed bound: a hit within the narrow interval is the hit of the
/// wide one, and a miss in the narrow interval means any wide-interval
/// hit lies beyond the narrow bound.
pub proof fn lemma_sphere_hit_tighten(s: SphereV, r: RayV, t_min: int, c: int, t_max: int)
    requires
        c <= t_max,
    ensures
        forall|t: int|
            sphere_hit_t(s, r, t_min, c) == Some(t) ==> sphere_hit_t(s, r, t_min, t_max) == Some(
                t,
            ),
        sphere_hit_t(s, r, t_min, c) is None ==> (match sphere_hit_t(s, r, t_min, t_max) {
            Option::Some(t0) => t0 > c,
            Option::None => true,
        }),
{
    let oc = v3_sub(r.orig, s.center);
    let a = spec_dot(r.dir, r.dir);
    let half_b = spec_dot(oc, r.dir);
    let cc = spec_len_sq(oc) - fmul(s.radius, s.radius);
    let disc = fmul(half_b, half_b) - fmul(a, cc);
    lemma_dot_self_nonneg(r.dir);
    if disc < 0 || a == 0 {
    } else {
        lemma_sqrt_fp_bounds(disc);
        let sq = sqrt_fp(disc);
        lemma_sdiv_monotone((-half_b - sq) * (SCALE as int), (-half_b + sq) * (SCALE as int), a);
        assert(fdiv(-half_b - sq, a) <= fdiv(-half_b + sq, a));
    }
}

/// After `n` spheres the traversal state is sound: on a miss so far the
/// bound is untouched and every sphere seen missed; on a hit so far the
/// bound equals the best parameter, the best record is a genuine record
/// of one sphere seen, and no sphere seen hits nearer.
proof fn lemma_scene_prefix_nearest(objs: Seq<SphereV>, n: int, r: RayV, t_min: int, t_max: int)
    requires
        0 <= n <= objs.len(),
    ensures
        ({
            let st = scene_hit_prefix(objs, n, r, t_min, t_max);
            &&& (st.1 is None ==> st.0 == t_max && (forall|i: int|
                0 <= i < n ==> #[trigger] sphere_hit_t(objs[i], r, t_min, t_max) is None))
            &&& (match st.1 {
                Option::Some(b) => {
                    &&& st.0 == b.t
                    &&& t_min <= b.t <= t_max
                    &&& exists|i: int|
                        0 <= i < n && #[trigger] sphere_hit_t(objs[i], r, t_min, t_max) == Some(
                            b.t,
                        ) && b == sphere_hit_rec(objs[i], r, b.t)
                    &&& forall|i: int|
                        0 <= i < n ==> (match #[trigger] sphere_hit_t(
                            objs[i],
                            r,
                            t_min,
                            t_max,
                        ) {
                            Option::Some(ti) => b.t <= ti,
                            Option::None => true,
                        })
                },
                Option::None => true,
            })
        }),
    decreases n,
{
    if n > 0 {
        lemma_scene_prefix_nearest(objs, n - 1, r, t_min, t_max);
        let prev = scene_hit_prefix(objs, n - 1, r, t_min, t_max);
        lemma_sphere_hit_tighten(objs[n - 1], r, t_min, prev.0, t_max);
        let st = scene_hit_prefix(objs, n, r, t_min, t_max);
        match sphere_hit_t(objs[n - 1], r, t_min, prev.0) {
            Option::Some(t) => {
                assert(sphere_hit_t(objs[n - 1], r, t_min, t_max) == Some(t));
                assert(st.1 == Some(sphere_hit_rec(objs[n - 1], r, t)));
            },
            Option::None => {},
        }
    }
}

/// The scene's answer is the nearest hit: on `None` every sphere misses
/// the full interval; on `Some(rec)` the record is a genuine hit record
/// of one of the spheres, and its parameter is no larger than any
/// sphere's hit parameter over the full interval.
pub proof fn lemma_scene_hit_nearest(objs: Seq<SphereV>, r: RayV, t_min: int, t_max: int)
    ensures
        scene_hit(objs, r, t_min, t_max) is None ==> (forall|i: int|
            0 <= i < objs.len() ==> #[trigger] sphere_hit_t(objs[i], r, t_min, t_max) is None),
        (match scene_hit(objs, r, t_min, t_max) {
            Option::Some(rec) => {
                &&& t_min <= rec.t <= t_max
                &&& exists|i: int|
                    0 <= i < objs.len() && #[trigger] sphere_hit_t(objs[i], r, t_min, t_max)
                        == Some(rec.t) && rec == sphere_hit_rec(objs[i], r, rec.t)
                &&& forall|i: int|
                    0 <= i < objs.len() ==> (match #[trigger] sphere_hit_t(
                        objs[i],
                        r,
                        t_min,
                        t_max,
                    ) {
                        Option::Some(ti) => rec.t <= ti,
                        Option::None => true,
                    })
            },
            Option::None => true,
        }),
{
    lemma_scene_prefix_nearest(objs, objs.len() as int, r, t_min, t_max);
}

/// An ordered collection of spheres, tested as one aggregate.
#[derive(Debug)]
pub struct HitTableList {
    pub objects: Vec<Sphere>,
}

impl View for HitTableList {
    type V = Seq<SphereV>;

    open spec fn view(&self) -> Seq<SphereV> {
        self.objects@.map_values(|s: Sphere| s@)
    }
}

impl HitTableList {
    /// An empty scene.
    pub fn new() -> (r: HitTableList)
        ensures
            r@.len() == 0,
    {
        HitTableList { objects: Vec::new() }
    }

    /// A scene holding one primitive.
    pub fn new_val(object: Sphere) -> (r: HitTableList)
        ensures
            r@.len() == 1,
            r@[0] == object@,
    {
        let mut objects: Vec<Sphere> = Vec::new();
        objects.push(object);
        HitTableList { objects }
    }

    /// Appends a primitive; insertion order is kept.
    pub fn add(&mut self, object: Sphere)
        ensures
            final(self)@ == old(self)@.push(object@),
    {
        self.objects.push(object);
        proof {
            assert(final(self)@ =~= old(self)@.push(object@));
        }
    }

    /// Removes every primitive.
    pub fn clear(&mut self)
        ensures
            final(self)@.len() == 0,
    {
        self.objects.clear();
        proof {
            assert(final(self)@ =~= Seq::<SphereV>::empty());
        }
    }

    /// Tests the ray against every member over `[t_min, t_max]` and
    /// returns the record of the nearest hit, or `None` when everything
    /// misses; the outcome equals [`scene_hit`] exactly.
    pub fn hit(&self, r: &Ray, t_min: Fp, t_max: Fp) -> (res: Option<HitRecord>)
        requires
            scene_in_range(self@),
            ray_in_range(r@),
            in_range(t_min@),
            in_range(t_max@),
        ensures
            opt_rec_view(res) == scene_hit(self@, r@, t_min@, t_max@),
            (match res {
                Option::Some(rec) => t_min@ <= rec@.t <= t_max@,
                Option::None => true,
            }),
    {
        let mut best: Option<HitRecord> = None;
        let mut closest: Fp = t_max;
        let n: usize = self.objects.len();
        let mut k: usize = 0;
        while k < n
            invariant
                scene_in_range(self@),
                ray_in_range(r@),
                in_range(t_min@),
                in_range(t_max@),
                in_range(closest@),
                n == self.objects.len(),
                0 <= k <= n,
                closest@ == scene_hit_prefix(self@, k as int, r@, t_min@, t_max@).0,
                opt_rec_view(best) == scene_hit_prefix(self@, k as int, r@, t_min@, t_max@).1,
                (match best {
                    Option::Some(rec) => t_min@ <= rec@.t <= t_max@ && closest@ == rec@.t,
                    Option::None => closest@ == t_max@,
                }),
            decreases n - k,
        {
            proof {
                assert(self@[k as int] == self.objects@[k as int]@);
            }
            let res: Option<HitRecord> = self.objects[k].hit(r, t_min, closest);
            match res {
                Option::Some(rec) => {
                    closest = rec.t;
                    best = Some(rec);
                },
                Option::None => {},
            }
            k = k + 1;
        }
        best
    }
}

} // verus!
