//! Ray-primitive intersection: hit records with oriented normals, spheres,
//! and the aggregate world that resolves the nearest hit.

use vstd::prelude::*;
use crate::fixed::{FP_ONE, FP_BOUND, T_MAX, spec_fmul, spec_fdiv, sqrt_floor, lemma_tdiv_abs,
    lemma_mul_abs, lemma_sqrt_floor_pos, fmul, fdiv, isqrt};
use crate::vec3::{Vec3, bounded, sdot, spec_dot, spec_length_squared};
use crate::ray::{Ray, wf_ray, spec_at_x, spec_at_y, spec_at_z};

verus! {

/// A successful intersection: the hit point, the normal oriented against the
/// incoming ray, the parametric distance, which side was struck, and the
/// handle of the material owning the surface.
#[derive(Clone, Copy, PartialEq, Eq, Structural, Debug)]
pub struct HitRecord {
    pub p: Vec3,
    pub normal: Vec3,
    pub t: i64,
    pub front_face: bool,
    pub material: usize,
}

impl HitRecord {
    /// Build a record from an outward geometric normal, flipping it when the
    /// ray strikes from inside so the stored normal always opposes the ray.
    pub fn new(ray: &Ray, p: Vec3, outward_normal: Vec3, t: i64, material: usize) -> (r: HitRecord)
        requires
            bounded(ray.direction, 0x4000_0000),
            bounded(outward_normal, 0x4000_0000),
        ensures
            r.p == p,
            r.t == t,
            r.material == material,
            r.front_face == (spec_dot(ray.direction, outward_normal) < 0),
            r.front_face ==> r.normal == outward_normal,
            !r.front_face ==> r.normal.x == -outward_normal.x && r.normal.y == -outward_normal.y
                && r.normal.z == -outward_normal.z,
    {
        let front_face = ray.direction.dot(outward_normal) < 0;
        let normal = if front_face {
            outward_normal
        } else {
            outward_normal.neg()
        };
        HitRecord { p, normal, t, front_face, material }
    }
}

/// A sphere: centre, radius and the handle of its material.
#[derive(Clone, Copy, PartialEq, Eq, Structural, Debug)]
pub struct Sphere {
    pub center: Vec3,
    pub radius: i64,
    pub material: usize,
}

/// Magnitude bound the renderer accepts for a computed surface normal: an
/// outward normal is the hit offset divided by the radius, so it is within a
/// rounding step of unit length whenever the reported root is sound.
pub const NORMAL_BOUND: i64 = 131072;

/// A sphere the renderer accepts: centre in the scene's coordinate range and
/// a positive radius no larger than that range.
pub open spec fn wf_sphere(s: Sphere) -> bool {
    &&& bounded(s.center, FP_BOUND as int)
    &&& 0 < s.radius <= FP_BOUND
}

/// The difference of the ray origin and the sphere centre.
pub open spec fn spec_oc(s: Sphere, r: Ray) -> Vec3 {
    Vec3 {
        x: (r.origin.x - s.center.x) as i64,
        y: (r.origin.y - s.center.y) as i64,
        z: (r.origin.z - s.center.z) as i64,
    }
}

/// The quadratic's leading coefficient: the direction's squared length.
pub open spec fn spec_quad_a(s: Sphere, r: Ray) -> int {
    spec_length_squared(r.direction)
}

/// Half the quadratic's middle coefficient.
pub open spec fn spec_quad_half_b(s: Sphere, r: Ray) -> int {
    spec_dot(spec_oc(s, r), r.direction)
}

/// The quadratic's constant coefficient.
pub open spec fn spec_quad_c(s: Sphere, r: Ray) -> int {
    spec_length_squared(spec_oc(s, r)) - spec_fmul(s.radius as int, s.radius as int)
}

/// The discriminant of the intersection quadratic.
pub open spec fn spec_disc(s: Sphere, r: Ray) -> int {
    spec_fmul(spec_quad_half_b(s, r), spec_quad_half_b(s, r)) - spec_fmul(
        spec_quad_a(s, r),
        spec_quad_c(s, r),
    )
}

/// The smaller root of the intersection quadratic.
pub open spec fn spec_root1(s: Sphere, r: Ray) -> int {
    spec_fdiv(-spec_quad_half_b(s, r) - sqrt_floor(spec_disc(s, r) * FP_ONE), spec_quad_a(s, r))
}

/// The larger root of the intersection quadratic.
pub open spec fn spec_root2(s: Sphere, r: Ray) -> int {
    spec_fdiv(-spec_quad_half_b(s, r) + sqrt_floor(spec_disc(s, r) * FP_ONE), spec_quad_a(s, r))
}

/// The root the intersection reports: the smaller root when it lies strictly
/// inside `(t_min, t_max)`, otherwise the larger.
pub open spec fn spec_chosen_t(s: Sphere, r: Ray, t_min: int, t_max: int) -> int {
    if t_min < spec_root1(s, r) && spec_root1(s, r) < t_max {
        spec_root1(s, r)
    } else {
        spec_root2(s, r)
    }
}

/// The point the ray reaches at parameter `t`.
pub open spec fn spec_point(r: Ray, t: int) -> Vec3 {
    Vec3 {
        x: spec_at_x(r, t) as i64,
        y: spec_at_y(r, t) as i64,
        z: spec_at_z(r, t) as i64,
    }
}

/// The outward geometric normal at the hit point: the offset from the centre
/// divided by the radius.
pub open spec fn spec_outward(s: Sphere, r: Ray, t: int) -> Vec3 {
    Vec3 {
        x: spec_fdiv(spec_point(r, t).x - s.center.x, s.radius as int) as i64,
        y: spec_fdiv(spec_point(r, t).y - s.center.y, s.radius as int) as i64,
        z: spec_fdiv(spec_point(r, t).z - s.center.z, s.radius as int) as i64,
    }
}

/// The record a sphere reports for parameter `t`, with the normal oriented
/// against the incoming ray.
pub open spec fn spec_hit_record(s: Sphere, r: Ray, t: int) -> HitRecord {
    let outward = spec_outward(s, r, t);
    let ff = spec_dot(r.direction, outward) < 0;
    HitRecord {
        p: spec_point(r, t),
        normal: if ff {
            outward
        } else {
            Vec3 { x: (-outward.x) as i64, y: (-outward.y) as i64, z: (-outward.z) as i64 }
        },
        t: t as i64,
        front_face: ff,
        material: s.material,
    }
}

/// What a sphere's intersection test returns: the record for the chosen root
/// when the discriminant is positive, the direction is not degenerate, the
/// root lies strictly inside `(t_min, t_max)`, and the computed normal stays
/// in the scene's coordinate range; otherwise nothing.
pub open spec fn spec_sphere_hit(s: Sphere, r: Ray, t_min: int, t_max: int) -> Option<HitRecord> {
    if spec_disc(s, r) > 0 && spec_quad_a(s, r) > 0 {
        let t = spec_chosen_t(s, r, t_min, t_max);
        if t_min < t && t < t_max && bounded(spec_outward(s, r, t), NORMAL_BOUND as int) {
            Some(spec_hit_record(s, r, t))
        } else {
            None
        }
    } else {
        None
    }
}

impl Sphere {
    /// Solve the intersection quadratic and report the nearest root inside
    /// `(t_min, t_max)`, if any.
    pub fn hit(&self, ray: &Ray, t_min: i64, t_max: i64) -> (res: Option<HitRecord>)
        requires
            wf_sphere(*self),
            wf_ray(*ray),
            -T_MAX <= t_min <= T_MAX,
            -T_MAX <= t_max <= T_MAX,
        ensures
            res == spec_sphere_hit(*self, *ray, t_min as int, t_max as int),
    {
        let oc = ray.origin.sub(&self.center);
        let a = ray.direction.length_squared();
        proof {
            lemma_mul_abs(oc.x as int, ray.direction.x as int, 0x200_0000, 0x100_0000);
            lemma_mul_abs(oc.y as int, ray.direction.y as int, 0x200_0000, 0x100_0000);
            lemma_mul_abs(oc.z as int, ray.direction.z as int, 0x200_0000, 0x100_0000);
            lemma_tdiv_abs(sdot(oc, ray.direction), FP_ONE as int, 0x6_0000_0000_0000);
            lemma_mul_abs(oc.x as int, oc.x as int, 0x200_0000, 0x200_0000);
            lemma_mul_abs(oc.y as int, oc.y as int, 0x200_0000, 0x200_0000);
            lemma_mul_abs(oc.z as int, oc.z as int, 0x200_0000, 0x200_0000);
            lemma_tdiv_abs(sdot(oc, oc), FP_ONE as int, 0xC_0000_0000_0000);
            lemma_mul_abs(self.radius as int, self.radius as int, FP_BOUND as int, FP_BOUND as int);
            lemma_tdiv_abs(self.radius as int * self.radius as int, FP_ONE as int,
                0x1_0000_0000_0000);
            lemma_mul_abs(ray.direction.x as int, ray.direction.x as int, 0x100_0000, 0x100_0000);
            lemma_mul_abs(ray.direction.y as int, ray.direction.y as int, 0x100_0000, 0x100_0000);
            lemma_mul_abs(ray.direction.z as int, ray.direction.z as int, 0x100_0000, 0x100_0000);
            lemma_tdiv_abs(sdot(ray.direction, ray.direction), FP_ONE as int, 0x3_0000_0000_0000);
        }
        let half_b = oc.dot(ray.direction);
        let c = oc.length_squared() - fmul(self.radius, self.radius);
        proof {
            lemma_mul_abs(half_b as int, half_b as int, 0x6_0000_0000, 0x6_0000_0000);
            lemma_tdiv_abs(half_b as int * half_b as int, FP_ONE as int, 0x24_0000_0000_0000_0000);
            lemma_mul_abs(a as int, c as int, 0x3_0000_0000, 0xD_0000_0000);
            lemma_tdiv_abs(a as int * c as int, FP_ONE as int, 0x27_0000_0000_0000_0000);
        }
        let disc = fmul(half_b, half_b) - fmul(a, c);

        if disc > 0 && a > 0 {
            let root_u = isqrt((disc as u128) * 65536);
            proof {
                assert(root_u as int * root_u as int <= disc * 65536);
                assert(root_u as int <= 0x9_0000_0000) by (nonlinear_arith)
                    requires
                        root_u as int * root_u as int <= disc * 65536 && 0 <= root_u && disc
                            <= 0x4B_0000_0000_0000,
                ;
                lemma_sqrt_floor_pos(disc as int * FP_ONE);
            }
            let root = root_u as i64;
            let t1 = fdiv(-half_b - root, a);
            let temp = if t1 < t_max && t1 > t_min {
                t1
            } else {
                fdiv(-half_b + root, a)
            };

            if temp < t_max && temp > t_min {
                let point = ray.at(temp);
                proof {
                    lemma_mul_abs(ray.direction.x as int, temp as int, FP_BOUND as int,
                        T_MAX as int);
                    lemma_mul_abs(ray.direction.y as int, temp as int, FP_BOUND as int,
                        T_MAX as int);
                    lemma_mul_abs(ray.direction.z as int, temp as int, FP_BOUND as int,
                        T_MAX as int);
                    lemma_tdiv_abs(ray.direction.x as int * temp as int, FP_ONE as int,
                        FP_BOUND as int * T_MAX as int);
                    lemma_tdiv_abs(ray.direction.y as int * temp as int, FP_ONE as int,
                        FP_BOUND as int * T_MAX as int);
                    lemma_tdiv_abs(ray.direction.z as int * temp as int, FP_ONE as int,
                        FP_BOUND as int * T_MAX as int);
                }
                let diff = point.sub(&self.center);
                let outward = diff.div_scalar(self.radius);
                if -NORMAL_BOUND <= outward.x && outward.x <= NORMAL_BOUND && -NORMAL_BOUND
                    <= outward.y && outward.y <= NORMAL_BOUND && -NORMAL_BOUND <= outward.z
                    && outward.z <= NORMAL_BOUND {
                    Some(HitRecord::new(ray, point, outward, temp, self.material))
                } else {
                    None
                }
            } else {
                None
            }
        } else {
            None
        }
    }
}

/// The given result restricted to hits nearer than `t_max2`.
pub open spec fn restrict_nearer(o: Option<HitRecord>, t_max2: int) -> Option<HitRecord> {
    match o {
        Some(rec) => if rec.t < t_max2 {
            Some(rec)
        } else {
            None
        },
        None => None,
    }
}

/// The first result when there is one, otherwise the second.
pub open spec fn first_or(a: Option<HitRecord>, b: Option<HitRecord>) -> Option<HitRecord> {
    if a is Some {
        a
    } else {
        b
    }
}

/// What the aggregate world returns: each sphere is tried in order, and each
/// hit shrinks the far bound to its own distance, so the nearest hit wins.
pub open spec fn spec_world_hit(spheres: Seq<Sphere>, r: Ray, t_min: int, t_max: int) -> Option<
    HitRecord,
>
    decreases spheres.len(),
{
    if spheres.len() == 0 {
        None
    } else {
        match spec_sphere_hit(spheres[0], r, t_min, t_max) {
            Some(rec) => first_or(
                spec_world_hit(spheres.skip(1), r, t_min, rec.t as int),
                Some(rec),
            ),
            None => spec_world_hit(spheres.skip(1), r, t_min, t_max),
        }
    }
}

/// Shrinking the far bound of a sphere's intersection test keeps exactly the
/// hits nearer than the new bound.
pub proof fn lemma_sphere_hit_shrink(s: Sphere, r: Ray, t_min: int, t_max: int, t_max2: int)
    requires
        -T_MAX <= t_min <= T_MAX,
        -T_MAX <= t_max <= T_MAX,
        t_max2 <= t_max,
    ensures
        spec_sphere_hit(s, r, t_min, t_max2) == restrict_nearer(
            spec_sphere_hit(s, r, t_min, t_max),
            t_max2,
        ),
{
    if spec_disc(s, r) > 0 && spec_quad_a(s, r) > 0 {
        lemma_sqrt_floor_pos(spec_disc(s, r) * FP_ONE);
        let root = sqrt_floor(spec_disc(s, r) * FP_ONE);
        let hb = spec_quad_half_b(s, r);
        crate::fixed::lemma_tdiv_mono(
            (-hb - root) * FP_ONE,
            (-hb + root) * FP_ONE,
            spec_quad_a(s, r),
        );
        assert(spec_root1(s, r) <= spec_root2(s, r));
    }
}

/// A hit the world reports lies strictly inside the queried interval.
pub proof fn lemma_world_hit_in_interval(spheres: Seq<Sphere>, r: Ray, t_min: int, t_max: int)
    requires
        -T_MAX <= t_min <= T_MAX,
        -T_MAX <= t_max <= T_MAX,
    ensures
        spec_world_hit(spheres, r, t_min, t_max) is Some ==> t_min < spec_world_hit(
            spheres,
            r,
            t_min,
            t_max,
        )->Some_0.t < t_max,
    decreases spheres.len(),
{
    if spheres.len() > 0 {
        match spec_sphere_hit(spheres[0], r, t_min, t_max) {
            Some(rec) => {
                lemma_world_hit_in_interval(spheres.skip(1), r, t_min, rec.t as int);
            },
            None => {
                lemma_world_hit_in_interval(spheres.skip(1), r, t_min, t_max);
            },
        }
    }
}

/// Shrinking the far bound of a world query keeps exactly the hits nearer
/// than the new bound.
pub proof fn lemma_world_hit_shrink(spheres: Seq<Sphere>, r: Ray, t_min: int, t_max: int,
    t_max2: int)
    requires
        -T_MAX <= t_min <= T_MAX,
        -T_MAX <= t_max <= T_MAX,
        t_max2 <= t_max,
    ensures
        spec_world_hit(spheres, r, t_min, t_max2) == restrict_nearer(
            spec_world_hit(spheres, r, t_min, t_max),
            t_max2,
        ),
    decreases spheres.len(),
{
    if spheres.len() > 0 {
        let rest = spheres.skip(1);
        lemma_sphere_hit_shrink(spheres[0], r, t_min, t_max, t_max2);
        match spec_sphere_hit(spheres[0], r, t_min, t_max) {
            None => {
                lemma_world_hit_shrink(rest, r, t_min, t_max, t_max2);
            },
            Some(rec0) => {
                if rec0.t < t_max2 {
                    lemma_world_hit_in_interval(rest, r, t_min, rec0.t as int);
                } else {
                    lemma_world_hit_shrink(rest, r, t_min, rec0.t as int, t_max2);
                    lemma_world_hit_in_interval(rest, r, t_min, rec0.t as int);
                }
            },
        }
    }
}

/// Nearest-hit resolution: whenever some sphere of the world reports a hit,
/// the world reports one, and at a distance no farther than that sphere's.
pub proof fn lemma_world_hit_nearest(spheres: Seq<Sphere>, r: Ray, t_min: int, t_max: int, i: int)
    requires
        -T_MAX <= t_min <= T_MAX,
        -T_MAX <= t_max <= T_MAX,
        0 <= i < spheres.len(),
        spec_sphere_hit(spheres[i], r, t_min, t_max) is Some,
    ensures
        spec_world_hit(spheres, r, t_min, t_max) is Some,
        spec_world_hit(spheres, r, t_min, t_max)->Some_0.t <= spec_sphere_hit(
            spheres[i],
            r,
            t_min,
            t_max,
        )->Some_0.t,
    decreases spheres.len(),
{
    let rest = spheres.skip(1);
    match spec_sphere_hit(spheres[0], r, t_min, t_max) {
        Some(rec0) => {
            lemma_world_hit_in_interval(rest, r, t_min, rec0.t as int);
            if i > 0 {
                assert(rest[i - 1] == spheres[i]);
                lemma_world_hit_nearest(rest, r, t_min, t_max, i - 1);
                lemma_world_hit_shrink(rest, r, t_min, t_max, rec0.t as int);
            }
        },
        None => {
            assert(i > 0);
            assert(rest[i - 1] == spheres[i]);
            lemma_world_hit_nearest(rest, r, t_min, t_max, i - 1);
        },
    }
}

/// The aggregate scene: an insertion-ordered list of spheres.
pub struct HitList {
    spheres: Vec<Sphere>,
}

impl HitList {
    /// The spheres the world holds, in insertion order.
    pub closed spec fn spheres(&self) -> Seq<Sphere> {
        self.spheres@
    }

    /// Every sphere of the world is well formed.
    pub open spec fn wf(&self) -> bool {
        forall|i: int| 0 <= i < self.spheres().len() ==> wf_sphere(#[trigger] self.spheres()[i])
    }

    pub fn new() -> (r: HitList)
        ensures
            r.spheres() =~= Seq::<Sphere>::empty(),
            r.wf(),
    {
        HitList { spheres: Vec::new() }
    }

    /// Add a primitive to the scene. Malformed spheres are rejected by the
    /// precondition, before any pixel is computed.
    pub fn add(&mut self, sphere: Sphere)
        requires
            wf_sphere(sphere),
        ensures
            final(self).spheres() =~= old(self).spheres().push(sphere),
            old(self).wf() ==> final(self).wf(),
    {
        self.spheres.push(sphere);
        proof {
            if old(self).wf() {
                assert forall|i: int| 0 <= i < self.spheres().len() implies wf_sphere(
                    #[trigger] self.spheres()[i],
                ) by {
                    if i < old(self).spheres().len() {
                        assert(self.spheres()[i] == old(self).spheres()[i]);
                    }
                }
            }
        }
    }

    /// Empty the scene.
    pub fn clear(&mut self)
        ensures
            final(self).spheres() =~= Seq::<Sphere>::empty(),
            final(self).wf(),
    {
        self.spheres.clear();
    }

    /// The closest intersection among all spheres within `(t_min, t_max)`:
    /// each hit found shrinks the far bound, so later, farther hits are
    /// rejected early.
    pub fn hit(&self, ray: &Ray, t_min: i64, t_max: i64) -> (res: Option<HitRecord>)
        requires
            self.wf(),
            wf_ray(*ray),
            -T_MAX <= t_min <= T_MAX,
            -T_MAX <= t_max <= T_MAX,
        ensures
            res == spec_world_hit(self.spheres(), *ray, t_min as int, t_max as int),
    {
        let mut closest: i64 = t_max;
        let mut record: Option<HitRecord> = None;
        let n = self.spheres.len();
        let mut i: usize = 0;
        proof {
            assert(self.spheres().skip(0) =~= self.spheres());
        }
        while i < n
            invariant
                0 <= i <= n,
                n == self.spheres().len(),
                self.wf(),
                wf_ray(*ray),
                -T_MAX <= t_min <= T_MAX,
                -T_MAX <= t_max <= T_MAX,
                -T_MAX <= closest <= T_MAX,
                record is Some ==> closest == record->Some_0.t && t_min < closest && closest
                    < t_max,
                record is None ==> closest == t_max,
                spec_world_hit(self.spheres(), *ray, t_min as int, t_max as int) == first_or(
                    spec_world_hit(self.spheres().skip(i as int), *ray, t_min as int,
                        closest as int),
                    record,
                ),
            decreases n - i,
        {
            let ghost prefix = self.spheres().skip(i as int);
            proof {
                assert(prefix[0] == self.spheres()[i as int]);
                assert(prefix.skip(1) =~= self.spheres().skip(i as int + 1));
            }
            if let Some(rec) = self.spheres[i].hit(ray, t_min, closest) {
                closest = rec.t;
                record = Some(rec);
            }
            i = i + 1;
        }
        proof {
            assert(self.spheres().skip(n as int) =~= Seq::<Sphere>::empty());
        }
        record
    }
}

} // verus!
