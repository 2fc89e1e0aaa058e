//! The camera: a fixed viewport through which normalized image coordinates
//! become world-space rays.

use vstd::prelude::*;
use crate::fixed::{FP_ONE, spec_fmul, spec_fdiv, lemma_tdiv_abs, lemma_mul_abs};
use crate::vec3::{Vec3, Point3, bounded};
use crate::ray::{Ray, wf_ray};

verus! {

/// Viewport height in world units (two).
pub const VIEWPORT_HEIGHT: i64 = 2 * 65536;

/// Viewport width: a sixteen-ninths aspect ratio times the height, rounded
/// down to the fixed-point lattice (thirty-two ninths of a unit).
pub const VIEWPORT_WIDTH: i64 = 233016;

/// Distance from the camera origin to the viewport plane (one).
pub const FOCAL_LENGTH: i64 = 65536;

/// Magnitude bound on every derived viewport vector (sixteen world units).
pub const CAMERA_BOUND: i64 = 0x10_0000;

/// Derived viewport geometry, computed once and immutable thereafter.
#[derive(Clone, Copy, PartialEq, Eq, Structural, Debug)]
pub struct Camera {
    pub origin: Point3,
    pub lower_left_corner: Point3,
    pub horizontal: Vec3,
    pub vertical: Vec3,
}

/// A camera whose viewport vectors stay within the camera bound.
pub open spec fn wf_camera(c: Camera) -> bool {
    &&& bounded(c.origin, CAMERA_BOUND as int)
    &&& bounded(c.lower_left_corner, CAMERA_BOUND as int)
    &&& bounded(c.horizontal, CAMERA_BOUND as int)
    &&& bounded(c.vertical, CAMERA_BOUND as int)
}

/// The ray `get_ray` builds for normalized image coordinates `(u, v)`, as
/// a function.
pub open spec fn spec_camera_ray(c: Camera, u: int, v: int) -> Ray {
    Ray {
        origin: c.origin,
        direction: Vec3 {
            x: (c.lower_left_corner.x + spec_fmul(c.horizontal.x as int, u) + spec_fmul(
                c.vertical.x as int,
                v,
            ) - c.origin.x) as i64,
            y: (c.lower_left_corner.y + spec_fmul(c.horizontal.y as int, u) + spec_fmul(
                c.vertical.y as int,
                v,
            ) - c.origin.y) as i64,
            z: (c.lower_left_corner.z + spec_fmul(c.horizontal.z as int, u) + spec_fmul(
                c.vertical.z as int,
                v,
            ) - c.origin.z) as i64,
        },
    }
}

impl Camera {
    /// The fixed camera: at the origin, looking down the negative depth
    /// axis, with the viewport one focal length away.
    pub fn new() -> (r: Camera)
        ensures
            r.origin == (Vec3 { x: 0, y: 0, z: 0 }),
            r.horizontal == (Vec3 { x: VIEWPORT_WIDTH, y: 0, z: 0 }),
            r.vertical == (Vec3 { x: 0, y: VIEWPORT_HEIGHT, z: 0 }),
            r.lower_left_corner.x == -spec_fdiv(VIEWPORT_WIDTH as int, 2 * FP_ONE),
            r.lower_left_corner.y == -spec_fdiv(VIEWPORT_HEIGHT as int, 2 * FP_ONE),
            r.lower_left_corner.z == -FOCAL_LENGTH,
            wf_camera(r),
    {
        let origin = Vec3::new(0, 0, 0);
        let horizontal = Vec3::new(VIEWPORT_WIDTH, 0, 0);
        let vertical = Vec3::new(0, VIEWPORT_HEIGHT, 0);
        let lower_left_corner = origin.sub(&horizontal.div_scalar(2 * FP_ONE)).sub(
            &vertical.div_scalar(2 * FP_ONE),
        ).sub(&Vec3::new(0, 0, FOCAL_LENGTH));
        Camera { origin, horizontal, vertical, lower_left_corner }
    }

    /// The ray from the camera origin toward the viewport point at
    /// normalized image coordinates `(u, v)`. Jittered sampling may push a
    /// coordinate slightly past one, so anything up to two is accepted.
    pub fn get_ray(&self, u: i64, v: i64) -> (r: Ray)
        requires
            wf_camera(*self),
            0 <= u <= 2 * FP_ONE,
            0 <= v <= 2 * FP_ONE,
        ensures
            r.origin == self.origin,
            r.direction.x == self.lower_left_corner.x + spec_fmul(self.horizontal.x as int, u as int)
                + spec_fmul(self.vertical.x as int, v as int) - self.origin.x,
            r.direction.y == self.lower_left_corner.y + spec_fmul(self.horizontal.y as int, u as int)
                + spec_fmul(self.vertical.y as int, v as int) - self.origin.y,
            r.direction.z == self.lower_left_corner.z + spec_fmul(self.horizontal.z as int, u as int)
                + spec_fmul(self.vertical.z as int, v as int) - self.origin.z,
            r == spec_camera_ray(*self, u as int, v as int),
            wf_ray(r),
    {
        proof {
            lemma_mul_abs(self.horizontal.x as int, u as int, CAMERA_BOUND as int, 2 * FP_ONE);
            lemma_mul_abs(self.horizontal.y as int, u as int, CAMERA_BOUND as int, 2 * FP_ONE);
            lemma_mul_abs(self.horizontal.z as int, u as int, CAMERA_BOUND as int, 2 * FP_ONE);
            lemma_mul_abs(self.vertical.x as int, v as int, CAMERA_BOUND as int, 2 * FP_ONE);
            lemma_mul_abs(self.vertical.y as int, v as int, CAMERA_BOUND as int, 2 * FP_ONE);
            lemma_mul_abs(self.vertical.z as int, v as int, CAMERA_BOUND as int, 2 * FP_ONE);
            lemma_tdiv_abs(self.horizontal.x as int * u as int, FP_ONE as int, CAMERA_BOUND as int
                * (2 * FP_ONE));
            lemma_tdiv_abs(self.horizontal.y as int * u as int, FP_ONE as int, CAMERA_BOUND as int
                * (2 * FP_ONE));
            lemma_tdiv_abs(self.horizontal.z as int * u as int, FP_ONE as int, CAMERA_BOUND as int
                * (2 * FP_ONE));
            lemma_tdiv_abs(self.vertical.x as int * v as int, FP_ONE as int, CAMERA_BOUND as int
                * (2 * FP_ONE));
            lemma_tdiv_abs(self.vertical.y as int * v as int, FP_ONE as int, CAMERA_BOUND as int
                * (2 * FP_ONE));
            lemma_tdiv_abs(self.vertical.z as int * v as int, FP_ONE as int, CAMERA_BOUND as int
                * (2 * FP_ONE));
        }
        let direction = self.lower_left_corner.add(&self.horizontal.scale(u)).add(
            &self.vertical.scale(v),
        ).sub(&self.origin);
        Ray { origin: self.origin, direction }
    }
}

} // verus!
