//! The per-intersection result bundle and its orientation rule.
//!
//! A populated record carries the hit point, the parameter `t`, and a
//! normal re-oriented so that it always faces against the incoming ray;
//! `front_face` remembers which side the ray came from.

use vstd::prelude::*;
use crate::fixed::Fp;
use crate::vec3::{Vec3, V3, v3_zero, v3_neg, spec_dot, dot_fits, neg_fits};
use crate::ray::Ray;

verus! {

/// The mathematical model of a hit record.
pub struct HitRecV {
    pub p: V3,
    pub normal: V3,
    pub t: int,
    pub front_face: bool,
}

/// Whether the ray meets the surface from the side its outward normal
/// points to.
pub open spec fn spec_front_face(dir: V3, outward: V3) -> bool {
    spec_dot(dir, outward) < 0
}

/// The stored normal: the outward normal, flipped when the ray arrives
/// from behind, so that it always opposes the incoming ray.
pub open spec fn spec_face_normal(dir: V3, outward: V3) -> V3 {
    if spec_front_face(dir, outward) {
        outward
    } else {
        v3_neg(outward)
    }
}

/// An intersection record: point, oriented normal, parameter, and facing
/// flag. Constructed empty, then populated by an intersection test.
#[derive(Clone, Copy, PartialEq, Eq, Structural, Debug)]
pub struct HitRecord {
    pub p: Vec3,
    pub normal: Vec3,
    pub t: Fp,
    pub front_face: bool,
}

impl View for HitRecord {
    type V = HitRecV;

    open spec fn view(&self) -> HitRecV {
        HitRecV { p: self.p@, normal: self.normal@, t: self.t@, front_face: self.front_face }
    }
}

impl HitRecord {
    /// An empty record, to be filled in by an intersection test.
    pub fn new() -> (r: HitRecord)
        ensures
            r@.p == v3_zero(),
            r@.normal == v3_zero(),
            r@.t == 0,
            r@.front_face == false,
    {
        HitRecord { p: Vec3::new(), normal: Vec3::new(), t: Fp::raw(0), front_face: false }
    }

    /// Stores the orientation-corrected normal: `front_face` holds exactly
    /// when the ray direction opposes the outward normal, and the stored
    /// normal is the outward normal or its negation accordingly.
    pub fn set_face_normal(&mut self, r: &Ray, outward_normal: &Vec3)
        requires
            dot_fits(r@.dir, outward_normal@),
            neg_fits(outward_normal@),
        ensures
            final(self)@.front_face == spec_front_face(r@.dir, outward_normal@),
            final(self)@.normal == spec_face_normal(r@.dir, outward_normal@),
            final(self)@.p == old(self)@.p,
            final(self)@.t == old(self)@.t,
    {
        let d: Fp = Vec3::dot(&r.direction(), outward_normal);
        self.front_face = d.v < 0;
        if self.front_face {
            self.normal = *outward_normal;
        } else {
            self.normal = outward_normal.neg();
        }
    }
}

} // verus!
