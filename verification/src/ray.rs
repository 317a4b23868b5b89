//! The ray abstraction: a parametric line `origin + t * direction`.

use vstd::prelude::*;
use crate::fixed::Fp;
use crate::vec3::{Vec3, V3, v3_zero, v3_add, v3_scale, add_fits, scale_fits};

verus! {

/// The mathematical model of a ray.
pub struct RayV {
    pub orig: V3,
    pub dir: V3,
}

/// The point reached after parameter `t` along the ray.
pub open spec fn ray_at(r: RayV, t: int) -> V3 {
    v3_add(r.orig, v3_scale(t, r.dir))
}

/// A ray: origin and (not necessarily normalized) direction. Immutable
/// once constructed.
#[derive(Clone, Copy, PartialEq, Eq, Structural, Debug)]
pub struct Ray {
    pub orig: Vec3,
    pub dir: Vec3,
}

impl View for Ray {
    type V = RayV;

    open spec fn view(&self) -> RayV {
        RayV { orig: self.orig@, dir: self.dir@ }
    }
}

impl Ray {
    /// The degenerate ray at the origin with zero direction.
    pub fn new() -> (r: Ray)
        ensures
            r@.orig == v3_zero(),
            r@.dir == v3_zero(),
    {
        Ray { orig: Vec3::new(), dir: Vec3::new() }
    }

    /// A ray from an origin toward a direction.
    pub fn new_val(orig: &Vec3, direction: &Vec3) -> (r: Ray)
        ensures
            r@.orig == orig@,
            r@.dir == direction@,
    {
        Ray { orig: *orig, dir: *direction }
    }

    /// The origin, by value.
    pub fn origin(&self) -> (r: Vec3)
        ensures
            r@ == self@.orig,
    {
        self.orig
    }

    /// The direction, by value.
    pub fn direction(&self) -> (r: Vec3)
        ensures
            r@ == self@.dir,
    {
        self.dir
    }

    /// The point at parameter `t`: `origin + t * direction`.
    pub fn at(&self, t: Fp) -> (r: Vec3)
        requires
            scale_fits(t@, self@.dir),
            add_fits(self@.orig, v3_scale(t@, self@.dir)),
        ensures
            r@ == ray_at(self@, t@),
    {
        self.orig.add(self.dir.scale(t))
    }
}

} // verus!
