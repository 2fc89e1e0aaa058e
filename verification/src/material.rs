//! Materials: how a surface scatters or absorbs an incoming ray.

use vstd::prelude::*;
use crate::fixed::{FP_ONE, FP_BOUND, spec_fmul, lemma_tdiv_abs, lemma_mul_abs};
use crate::vec3::{Vec3, Colour, bounded, sdot, spec_dot, spec_length_squared, spec_unit,
    lemma_unit_bounded};
use crate::ray::Ray;
use crate::hit::{HitRecord, NORMAL_BOUND};
use crate::rng::Sampler;

verus! {

/// A colour usable as an albedo: each channel a reflectance in `[0, 1]`.
pub open spec fn colour_wf(c: Colour) -> bool {
    &&& 0 <= c.x <= FP_ONE
    &&& 0 <= c.y <= FP_ONE
    &&& 0 <= c.z <= FP_ONE
}

/// Ideal diffuse reflection: scatters about the surface normal, tinted by
/// the albedo.
#[derive(Clone, Copy, PartialEq, Eq, Structural, Debug)]
pub struct Lambertian {
    pub albedo: Colour,
}

impl Lambertian {
    pub fn new(albedo: Colour) -> (r: Lambertian)
        requires
            colour_wf(albedo),
        ensures
            r.albedo == albedo,
    {
        Lambertian { albedo }
    }
}

/// Specular reflection, roughened by a fuzz radius in `[0, 1]`.
#[derive(Clone, Copy, PartialEq, Eq, Structural, Debug)]
pub struct Metal {
    pub albedo: Colour,
    pub fuzz: i64,
}

impl Metal {
    /// The fuzz is clamped into `[0, 1]` at construction.
    pub fn new(albedo: Colour, fuzz: i64) -> (r: Metal)
        requires
            colour_wf(albedo),
        ensures
            r.albedo == albedo,
            r.fuzz == if fuzz < 0 {
                0
            } else if fuzz > FP_ONE {
                FP_ONE
            } else {
                fuzz
            },
    {
        let clamped = if fuzz < 0 {
            0
        } else if fuzz > FP_ONE {
            FP_ONE
        } else {
            fuzz
        };
        Metal { albedo, fuzz: clamped }
    }
}

/// The closed set of materials the renderer dispatches over.
#[derive(Clone, Copy, PartialEq, Eq, Structural, Debug)]
pub enum Material {
    Lambertian(Lambertian),
    Metal(Metal),
}

/// A material the renderer accepts: albedo channels in `[0, 1]`, and for
/// metal a fuzz in `[0, 1]`.
pub open spec fn wf_material(m: Material) -> bool {
    match m {
        Material::Lambertian(l) => colour_wf(l.albedo),
        Material::Metal(mt) => colour_wf(mt.albedo) && 0 <= mt.fuzz <= FP_ONE,
    }
}

/// The ideal specular reflection of `v` about the normal `n`.
pub open spec fn spec_reflect(v: Vec3, n: Vec3) -> Vec3 {
    Vec3 {
        x: (v.x - spec_fmul(n.x as int, 2 * spec_dot(v, n))) as i64,
        y: (v.y - spec_fmul(n.y as int, 2 * spec_dot(v, n))) as i64,
        z: (v.z - spec_fmul(n.z as int, 2 * spec_dot(v, n))) as i64,
    }
}

/// The ideal reflection nudged by `fuzz` times the ball sample `s`.
pub open spec fn spec_perturbed(refl: Vec3, s: Vec3, fuzz: i64) -> Vec3 {
    Vec3 {
        x: (refl.x + spec_fmul(s.x as int, fuzz as int)) as i64,
        y: (refl.y + spec_fmul(s.y as int, fuzz as int)) as i64,
        z: (refl.z + spec_fmul(s.z as int, fuzz as int)) as i64,
    }
}

/// What `scatter` promises of its result: a diffuse surface always
/// scatters its albedo from the hit point along the nudged normal; a metal
/// surface reflects the unit incoming direction about the normal, perturbs
/// it by `fuzz` times a point of the unit ball, and scatters only when the
/// perturbed direction still points away from the surface (with zero fuzz,
/// exactly when the ideal reflection does).
pub open spec fn scatter_post(m: Material, r: Ray, rec: HitRecord, res: Option<
    (Colour, Ray),
>) -> bool {
    match m {
        Material::Lambertian(l) => {
            &&& res is Some
            &&& res->Some_0.0 == l.albedo
            &&& res->Some_0.1.origin == rec.p
            &&& exists|u: Vec3|
                {
                    &&& #[trigger] bounded(u, 2 * FP_ONE as int)
                    &&& FP_ONE - 13 <= spec_length_squared(u) <= FP_ONE + 16
                    &&& res->Some_0.1.direction.x == rec.normal.x + u.x
                    &&& res->Some_0.1.direction.y == rec.normal.y + u.y
                    &&& res->Some_0.1.direction.z == rec.normal.z + u.z
                }
        },
        Material::Metal(mt) => {
            let refl = spec_reflect(spec_unit(r.direction), rec.normal);
            &&& (mt.fuzz == 0 ==> (res is Some <==> spec_dot(refl, rec.normal) > 0))
            &&& (res is Some ==> {
                &&& res->Some_0.0 == mt.albedo
                &&& res->Some_0.1.origin == rec.p
                &&& spec_dot(res->Some_0.1.direction, rec.normal) > 0
                &&& exists|s: Vec3|
                    {
                        &&& #[trigger] bounded(s, FP_ONE as int)
                        &&& spec_length_squared(s) < FP_ONE
                        &&& res->Some_0.1.direction == spec_perturbed(refl, s, mt.fuzz)
                    }
                &&& (mt.fuzz == 0 ==> res->Some_0.1.direction == refl)
            })
            &&& (res is None ==> exists|s: Vec3|
                {
                    &&& #[trigger] bounded(s, FP_ONE as int)
                    &&& spec_length_squared(s) < FP_ONE
                    &&& spec_dot(spec_perturbed(refl, s, mt.fuzz), rec.normal) <= 0
                })
        },
    }
}

impl Material {
    /// Decide whether the incoming ray scatters at the hit, and if so with
    /// what attenuation and scattered ray.
    #[verifier::rlimit(60)]
    pub fn scatter(&self, rng: &mut Sampler, ray: &Ray, rec: &HitRecord) -> (res: Option<
        (Colour, Ray),
    >)
        requires
            wf_material(*self),
            bounded(ray.direction, FP_BOUND as int),
            bounded(rec.normal, NORMAL_BOUND as int),
            *self is Metal ==> spec_length_squared(ray.direction) >= 2,
        ensures
            scatter_post(*self, *ray, *rec, res),
    {
        match self {
            Material::Lambertian(l) => {
                let u = Vec3::random_unit_vector(rng);
                let direction = rec.normal.add(&u);
                let scattered = Ray { origin: rec.p, direction };
                let res = Some((l.albedo, scattered));
                proof {
                    assert(bounded(u, 2 * FP_ONE as int) && FP_ONE - 13 <= spec_length_squared(u)
                        <= FP_ONE + 16 && scattered.direction.x == rec.normal.x + u.x
                        && scattered.direction.y == rec.normal.y + u.y && scattered.direction.z
                        == rec.normal.z + u.z);
                    assert(scatter_post(*self, *ray, *rec, res));
                }
                res
            },
            Material::Metal(m) => {
                proof {
                    lemma_unit_bounded(ray.direction);
                }
                let uv = ray.direction.unit();
                let d = uv.dot(rec.normal);
                proof {
                    lemma_mul_abs(uv.x as int, rec.normal.x as int, 0x2_0000, 0x2_0000);
                    lemma_mul_abs(uv.y as int, rec.normal.y as int, 0x2_0000, 0x2_0000);
                    lemma_mul_abs(uv.z as int, rec.normal.z as int, 0x2_0000, 0x2_0000);
                    lemma_tdiv_abs(sdot(uv, rec.normal), FP_ONE as int, 0xC_0000_0000);
                    lemma_mul_abs(rec.normal.x as int, 2 * d as int, 0x2_0000, 0x18_0000);
                    lemma_mul_abs(rec.normal.y as int, 2 * d as int, 0x2_0000, 0x18_0000);
                    lemma_mul_abs(rec.normal.z as int, 2 * d as int, 0x2_0000, 0x18_0000);
                    lemma_tdiv_abs(rec.normal.x as int * (2 * d as int), FP_ONE as int,
                        0x30_0000_0000);
                    lemma_tdiv_abs(rec.normal.y as int * (2 * d as int), FP_ONE as int,
                        0x30_0000_0000);
                    lemma_tdiv_abs(rec.normal.z as int * (2 * d as int), FP_ONE as int,
                        0x30_0000_0000);
                }
                let reflected = uv.sub(&rec.normal.scale(2 * d));
                proof {
                    assert(uv == spec_unit(ray.direction));
                    assert(reflected == spec_reflect(spec_unit(ray.direction), rec.normal));
                }
                let s = Vec3::random_in_unit_sphere(rng);
                proof {
                    lemma_mul_abs(s.x as int, m.fuzz as int, FP_ONE as int, FP_ONE as int);
                    lemma_mul_abs(s.y as int, m.fuzz as int, FP_ONE as int, FP_ONE as int);
                    lemma_mul_abs(s.z as int, m.fuzz as int, FP_ONE as int, FP_ONE as int);
                    lemma_tdiv_abs(s.x as int * m.fuzz as int, FP_ONE as int, 0x1_0000_0000);
                    lemma_tdiv_abs(s.y as int * m.fuzz as int, FP_ONE as int, 0x1_0000_0000);
                    lemma_tdiv_abs(s.z as int * m.fuzz as int, FP_ONE as int, 0x1_0000_0000);
                }
                let perturb = s.scale(m.fuzz);
                let direction = reflected.add(&perturb);
                proof {
                    assert(bounded(s, FP_ONE as int) && spec_length_squared(s) < FP_ONE
                        && direction == spec_perturbed(
                        spec_reflect(spec_unit(ray.direction), rec.normal),
                        s,
                        m.fuzz,
                    ));
                    if m.fuzz == 0 {
                        vstd::arithmetic::div_mod::lemma_div_basics_1(FP_ONE as int);
                        vstd::arithmetic::mul::lemma_mul_by_zero_is_zero(s.x as int);
                        vstd::arithmetic::mul::lemma_mul_by_zero_is_zero(s.y as int);
                        vstd::arithmetic::mul::lemma_mul_by_zero_is_zero(s.z as int);
                        assert(spec_fmul(s.x as int, 0) == 0);
                        assert(direction == reflected);
                    }
                }
                if direction.dot(rec.normal) > 0 {
                    let scattered = Ray { origin: rec.p, direction };
                    let res = Some((m.albedo, scattered));
                    proof {
                        let refl = spec_reflect(spec_unit(ray.direction), rec.normal);
                        assert(res->Some_0.0 == m.albedo);
                        assert(res->Some_0.1.origin == rec.p);
                        assert(spec_dot(res->Some_0.1.direction, rec.normal) > 0);
                        assert(exists|s2: Vec3|
                            {
                                &&& #[trigger] bounded(s2, FP_ONE as int)
                                &&& spec_length_squared(s2) < FP_ONE
                                &&& res->Some_0.1.direction == spec_perturbed(refl, s2, m.fuzz)
                            });
                        assert(scatter_post(*self, *ray, *rec, res));
                    }
                    res
                } else {
                    proof {
                        let refl = spec_reflect(spec_unit(ray.direction), rec.normal);
                        assert(spec_dot(spec_perturbed(refl, s, m.fuzz), rec.normal) <= 0);
                        assert(exists|s2: Vec3|
                            {
                                &&& #[trigger] bounded(s2, FP_ONE as int)
                                &&& spec_length_squared(s2) < FP_ONE
                                &&& spec_dot(spec_perturbed(refl, s2, m.fuzz), rec.normal) <= 0
                            });
                        assert(scatter_post(*self, *ray, *rec, None::<(Colour, Ray)>));
                    }
                    None
                }
            },
        }
    }
}

} // verus!
