//! Rays: an origin and a direction, evaluated at a parametric distance.

use vstd::prelude::*;
use crate::fixed::{FP_BOUND, T_MAX, spec_fmul};
use crate::vec3::{Vec3, Point3, bounded};

verus! {

/// A half-line through `origin` along `direction`.
#[derive(Clone, Copy, PartialEq, Eq, Structural, Debug)]
pub struct Ray {
    pub origin: Point3,
    pub direction: Vec3,
}

/// A ray whose origin and direction both lie in the scene's coordinate range.
pub open spec fn wf_ray(r: Ray) -> bool {
    &&& bounded(r.origin, FP_BOUND as int)
    &&& bounded(r.direction, FP_BOUND as int)
}

/// The point a ray reaches at parameter `t`, one component at a time.
pub open spec fn spec_at_x(r: Ray, t: int) -> int {
    r.origin.x + spec_fmul(r.direction.x as int, t)
}

pub open spec fn spec_at_y(r: Ray, t: int) -> int {
    r.origin.y + spec_fmul(r.direction.y as int, t)
}

pub open spec fn spec_at_z(r: Ray, t: int) -> int {
    r.origin.z + spec_fmul(r.direction.z as int, t)
}

impl Ray {
    pub fn new(origin: Point3, direction: Vec3) -> (r: Ray)
        ensures
            r == (Ray { origin, direction }),
    {
        Ray { origin, direction }
    }

    /// Evaluate the ray at parameter `t`.
    pub fn at(&self, t: i64) -> (r: Point3)
        requires
            wf_ray(*self),
            -T_MAX <= t <= T_MAX,
        ensures
            r.x == spec_at_x(*self, t as int),
            r.y == spec_at_y(*self, t as int),
            r.z == spec_at_z(*self, t as int),
    {
        proof {
            crate::fixed::lemma_mul_abs(self.direction.x as int, t as int, FP_BOUND as int,
                T_MAX as int);
            crate::fixed::lemma_mul_abs(self.direction.y as int, t as int, FP_BOUND as int,
                T_MAX as int);
            crate::fixed::lemma_mul_abs(self.direction.z as int, t as int, FP_BOUND as int,
                T_MAX as int);
            crate::fixed::lemma_tdiv_abs(self.direction.x as int * t as int, crate::fixed::FP_ONE
                as int, FP_BOUND as int * T_MAX as int);
            crate::fixed::lemma_tdiv_abs(self.direction.y as int * t as int, crate::fixed::FP_ONE
                as int, FP_BOUND as int * T_MAX as int);
            crate::fixed::lemma_tdiv_abs(self.direction.z as int * t as int, crate::fixed::FP_ONE
                as int, FP_BOUND as int * T_MAX as int);
        }
        self.origin.add(&self.direction.scale(t))
    }
}

} // verus!
