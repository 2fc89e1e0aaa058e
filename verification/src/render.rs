//! The path integrator: recursive, depth-bounded colour accumulation, and
//! the finishing steps that turn accumulated samples into output channels.

use vstd::prelude::*;
use crate::fixed::{FP_ONE, FP_BOUND, T_MAX, tdiv, spec_fmul, spec_fdiv, sqrt_floor, is_sqrt,
    lemma_tdiv_abs, lemma_tdiv_mono, lemma_mul_abs, lemma_fmul_unit, fmul, fdiv, isqrt};
use crate::vec3::{Vec3, Colour, bounded, spec_length_squared, spec_unit, lemma_unit_bounded};
use crate::ray::{Ray, wf_ray};
use crate::hit::{HitRecord, HitList, Sphere, NORMAL_BOUND, spec_world_hit};
use crate::material::{Material, wf_material, colour_wf, scatter_post};
use crate::camera::{Camera, wf_camera, spec_camera_ray};
use crate::rng::Sampler;

verus! {

/// The near bound every shading query uses, excluding self-intersection at
/// the shaded point (about one thousandth of a unit).
pub const T_EPSILON: i64 = 65;

/// The sky colour at the zenith (half red, seven tenths green, full blue).
pub const SKY_R: i64 = 32768;

pub const SKY_G: i64 = 45875;

pub const SKY_B: i64 = 65536;

/// All components lie in `[0, 1]`: the range of a finished colour sample.
pub open spec fn colour_in_unit(c: Colour) -> bool {
    &&& 0 <= c.x <= FP_ONE
    &&& 0 <= c.y <= FP_ONE
    &&& 0 <= c.z <= FP_ONE
}

/// The background gradient for a missed ray: a vertical blend from white at
/// the horizon to sky blue at the zenith, steered by the unit direction's
/// height and clamped to the unit interval against rounding slop.
pub open spec fn spec_background(r: Ray) -> Colour {
    let uy = spec_unit(r.direction).y;
    let t0 = tdiv(uy + FP_ONE, 2);
    let t = if t0 < 0 {
        0
    } else if t0 > FP_ONE {
        FP_ONE as int
    } else {
        t0
    };
    Colour {
        x: (spec_fmul(FP_ONE - t, FP_ONE as int) + spec_fmul(t, SKY_R as int)) as i64,
        y: (spec_fmul(FP_ONE - t, FP_ONE as int) + spec_fmul(t, SKY_G as int)) as i64,
        z: (spec_fmul(FP_ONE - t, FP_ONE as int) + spec_fmul(t, SKY_B as int)) as i64,
    }
}

/// The background gradient a missed ray shades to.
pub fn background(ray: &Ray) -> (c: Colour)
    requires
        wf_ray(*ray),
        spec_length_squared(ray.direction) >= 2,
    ensures
        c == spec_background(*ray),
        colour_in_unit(c),
{
    proof {
        lemma_unit_bounded(ray.direction);
    }
    let u = ray.direction.unit();
    let t0 = (u.y + FP_ONE) / 2;
    let t = if t0 < 0 {
        0
    } else if t0 > FP_ONE {
        FP_ONE
    } else {
        t0
    };
    proof {
        lemma_fmul_unit(FP_ONE - t, FP_ONE as int);
        lemma_fmul_unit(t as int, SKY_R as int);
        lemma_fmul_unit(t as int, SKY_G as int);
        lemma_fmul_unit(t as int, SKY_B as int);
    }
    Vec3::new(
        fmul(FP_ONE - t, FP_ONE) + fmul(t, SKY_R),
        fmul(FP_ONE - t, FP_ONE) + fmul(t, SKY_G),
        fmul(FP_ONE - t, FP_ONE) + fmul(t, SKY_B),
    )
}

/// The black colour: no light.
pub open spec fn spec_black() -> Colour {
    Colour { x: 0, y: 0, z: 0 }
}

/// What the integrator returns at a hit: some scatter outcome consistent
/// with the material's contract, either absorbed to black or attenuating a
/// colour that is itself admissible for the scattered ray one level down; a
/// scattered ray that rounding threw out of the scene range shades to black.
pub open spec fn spec_hit_shade(world: Seq<Sphere>, materials: Seq<Material>, r: Ray,
    rec: HitRecord, depth: nat, c: Colour) -> bool
    decreases depth, 0nat,
{
    exists|res: Option<(Colour, Ray)>|
        {
            &&& #[trigger] scatter_post(materials[rec.material as int], r, rec, res)
            &&& match res {
                None => c == spec_black(),
                Some((att, sc)) => {
                    if depth == 0 {
                        false
                    } else if bounded(sc.direction, FP_BOUND as int) {
                        exists|rest: Colour|
                            {
                                &&& #[trigger] colour_in_unit(rest)
                                &&& spec_shade_ok(world, materials, sc, (depth - 1) as nat, rest)
                                &&& c.x == spec_fmul(att.x as int, rest.x as int)
                                &&& c.y == spec_fmul(att.y as int, rest.y as int)
                                &&& c.z == spec_fmul(att.z as int, rest.z as int)
                            }
                    } else {
                        c == spec_black()
                    }
                },
            }
        }
}

/// A colour the integrator may return for a ray at the given depth: black
/// once the budget is spent or for a degenerate direction; the background
/// gradient on a miss; and at a hit, black for an out-of-range record or an
/// unmapped material handle, and otherwise a hit shading one level down.
pub open spec fn spec_shade_ok(world: Seq<Sphere>, materials: Seq<Material>, r: Ray, depth: nat,
    c: Colour) -> bool
    decreases depth, 1nat,
{
    if depth == 0 {
        c == spec_black()
    } else if spec_length_squared(r.direction) < 2 {
        c == spec_black()
    } else {
        match spec_world_hit(world, r, T_EPSILON as int, T_MAX as int) {
            None => c == spec_background(r),
            Some(rec) => {
                if !(bounded(rec.p, FP_BOUND as int) && bounded(rec.normal, NORMAL_BOUND as int)) {
                    c == spec_black()
                } else if materials.len() <= rec.material {
                    c == spec_black()
                } else {
                    spec_hit_shade(world, materials, r, rec, depth, c)
                }
            },
        }
    }
}

/// The colour carried back along a ray: black once the recursion budget is
/// spent, the attenuated colour of the scattered continuation at the nearest
/// hit, and the background gradient on a miss. Degenerate values that
/// fixed-point rounding can produce (a near-zero direction, a hit point or
/// scattered ray outside the scene range, an unmapped material handle) shade
/// to black rather than propagate garbage.
pub fn ray_colour(ray: &Ray, world: &HitList, materials: &Vec<Material>, rng: &mut Sampler,
    depth: u32) -> (c: Colour)
    requires
        world.wf(),
        wf_ray(*ray),
        forall|i: int| 0 <= i < materials@.len() ==> wf_material(#[trigger] materials@[i]),
    ensures
        colour_in_unit(c),
        depth == 0 ==> c == spec_black(),
        depth > 0 && spec_length_squared(ray.direction) >= 2 && spec_world_hit(
            world.spheres(),
            *ray,
            T_EPSILON as int,
            T_MAX as int,
        ) is None ==> c == spec_background(*ray),
        spec_shade_ok(world.spheres(), materials@, *ray, depth as nat, c),
    decreases depth,
{
    if depth == 0 {
        return Vec3::new(0, 0, 0);
    }
    let ls = ray.direction.length_squared();
    if ls < 2 {
        return Vec3::new(0, 0, 0);
    }
    match world.hit(ray, T_EPSILON, T_MAX) {
        Some(rec) => {
            if !(-FP_BOUND <= rec.p.x && rec.p.x <= FP_BOUND && -FP_BOUND <= rec.p.y && rec.p.y
                <= FP_BOUND && -FP_BOUND <= rec.p.z && rec.p.z <= FP_BOUND) {
                return Vec3::new(0, 0, 0);
            }
            if !(-NORMAL_BOUND <= rec.normal.x && rec.normal.x <= NORMAL_BOUND && -NORMAL_BOUND
                <= rec.normal.y && rec.normal.y <= NORMAL_BOUND && -NORMAL_BOUND <= rec.normal.z
                && rec.normal.z <= NORMAL_BOUND) {
                return Vec3::new(0, 0, 0);
            }
            if rec.material >= materials.len() {
                return Vec3::new(0, 0, 0);
            }
            let sc_res = materials[rec.material].scatter(rng, ray, &rec);
            match sc_res {
                Some((attenuation, scattered)) => {
                    if !(-FP_BOUND <= scattered.direction.x && scattered.direction.x <= FP_BOUND
                        && -FP_BOUND <= scattered.direction.y && scattered.direction.y <= FP_BOUND
                        && -FP_BOUND <= scattered.direction.z && scattered.direction.z
                        <= FP_BOUND) {
                        proof {
                            assert(scatter_post(materials@[rec.material as int], *ray, rec,
                                sc_res));
                            assert(spec_hit_shade(world.spheres(), materials@, *ray, rec,
                                depth as nat, spec_black()));
                            assert(spec_shade_ok(world.spheres(), materials@, *ray, depth as nat,
                                spec_black()));
                        }
                        return Vec3::new(0, 0, 0);
                    }
                    proof {
                        assert(colour_wf(attenuation));
                    }
                    let rest = ray_colour(&scattered, world, materials, rng, depth - 1);
                    proof {
                        lemma_fmul_unit(attenuation.x as int, rest.x as int);
                        lemma_fmul_unit(attenuation.y as int, rest.y as int);
                        lemma_fmul_unit(attenuation.z as int, rest.z as int);
                    }
                    let shaded = Vec3::new(
                        fmul(attenuation.x, rest.x),
                        fmul(attenuation.y, rest.y),
                        fmul(attenuation.z, rest.z),
                    );
                    proof {
                        assert(colour_in_unit(rest));
                        assert(((depth as nat) - 1) as nat == (depth - 1) as nat);
                        assert(sc_res->Some_0.1 == scattered && sc_res->Some_0.0 == attenuation);
                        assert(spec_shade_ok(world.spheres(), materials@, sc_res->Some_0.1, ((
                        depth as nat) - 1) as nat, rest));
                        assert(scatter_post(materials@[rec.material as int], *ray, rec, sc_res));
                        assert(spec_hit_shade(world.spheres(), materials@, *ray, rec,
                            depth as nat, shaded));
                        assert(spec_shade_ok(world.spheres(), materials@, *ray, depth as nat,
                            shaded));
                    }
                    shaded
                },
                None => {
                    proof {
                        assert(scatter_post(materials@[rec.material as int], *ray, rec, sc_res));
                        assert(spec_hit_shade(world.spheres(), materials@, *ray, rec,
                            depth as nat, spec_black()));
                        assert(spec_shade_ok(world.spheres(), materials@, *ray, depth as nat,
                            spec_black()));
                    }
                    Vec3::new(0, 0, 0)
                },
            }
        },
        None => background(ray),
    }
}

/// The largest post-gamma channel value, mirroring the clamp at
/// nine-hundred-ninety-nine thousandths.
pub const CHANNEL_CLAMP: i64 = 65470;

/// The channel scale in thousandths (two-hundred-fifty-five point
/// nine-nine-nine), and its fixed-point denominator.
pub const CHANNEL_SCALE_NUM: i64 = 255999;

pub const CHANNEL_SCALE_DEN: i64 = 65536000;

/// One finished output channel: the accumulated value averaged over the
/// samples, gamma-corrected by a square root, clamped, scaled and truncated
/// to an integer in `[0, 255]`.
pub open spec fn spec_channel(v: int, samples: int) -> int {
    let avg = tdiv(v, samples);
    let g = sqrt_floor(avg * FP_ONE);
    let clamped = if g > CHANNEL_CLAMP {
        CHANNEL_CLAMP as int
    } else {
        g
    };
    tdiv(clamped * CHANNEL_SCALE_NUM, CHANNEL_SCALE_DEN as int)
}

fn channel(v: i64, samples: u32) -> (r: u32)
    requires
        1 <= samples,
        0 <= v <= samples as int * FP_ONE,
    ensures
        r == spec_channel(v as int, samples as int),
        r <= 255,
{
    let avg = v / (samples as i64);
    proof {
        vstd::arithmetic::div_mod::lemma_div_by_multiple(FP_ONE as int, samples as int);
        lemma_tdiv_mono(v as int, FP_ONE as int * samples as int, samples as int);
        lemma_tdiv_abs(v as int, samples as int, samples as int * FP_ONE as int);
    }
    let g = isqrt((avg as u128) * 65536);
    proof {
        assert(g as int <= FP_ONE) by (nonlinear_arith)
            requires
                is_sqrt(avg as int * FP_ONE, g as int) && 0 <= avg <= FP_ONE,
        ;
    }
    let gc: i64 = if g > 65470 {
        CHANNEL_CLAMP
    } else {
        g as i64
    };
    let ch = (gc * CHANNEL_SCALE_NUM) / CHANNEL_SCALE_DEN;
    proof {
        lemma_tdiv_mono(gc as int * CHANNEL_SCALE_NUM, 65470int * 255999, CHANNEL_SCALE_DEN as int);
        vstd::arithmetic::mul::lemma_mul_nonnegative(gc as int, CHANNEL_SCALE_NUM as int);
        lemma_tdiv_abs(gc as int * CHANNEL_SCALE_NUM, CHANNEL_SCALE_DEN as int, 65470int * 255999);
        lemma_mul_abs(gc as int, CHANNEL_SCALE_NUM as int, 65470, 255999);
    }
    ch as u32
}

/// Average, gamma-correct, clamp and scale an accumulated pixel colour into
/// integer RGB channels in `[0, 255]`.
pub fn colour_to_rgb(c: Colour, samples: u32) -> (rgb: (u32, u32, u32))
    requires
        1 <= samples,
        0 <= c.x <= samples as int * FP_ONE,
        0 <= c.y <= samples as int * FP_ONE,
        0 <= c.z <= samples as int * FP_ONE,
    ensures
        rgb.0 == spec_channel(c.x as int, samples as int),
        rgb.1 == spec_channel(c.y as int, samples as int),
        rgb.2 == spec_channel(c.z as int, samples as int),
        rgb.0 <= 255 && rgb.1 <= 255 && rgb.2 <= 255,
{
    (channel(c.x, samples), channel(c.y, samples), channel(c.z, samples))
}

/// The componentwise sums of a sequence of colours.
pub open spec fn sum_x(cols: Seq<Colour>) -> int
    decreases cols.len(),
{
    if cols.len() == 0 {
        0
    } else {
        sum_x(cols.drop_last()) + cols.last().x
    }
}

pub open spec fn sum_y(cols: Seq<Colour>) -> int
    decreases cols.len(),
{
    if cols.len() == 0 {
        0
    } else {
        sum_y(cols.drop_last()) + cols.last().y
    }
}

pub open spec fn sum_z(cols: Seq<Colour>) -> int
    decreases cols.len(),
{
    if cols.len() == 0 {
        0
    } else {
        sum_z(cols.drop_last()) + cols.last().z
    }
}

/// One admissible sample for pixel `(i, j)` under the given jitter pair:
/// the sample colour is admissible for the integrator on the jittered
/// camera ray.
pub open spec fn spec_sample_ok(camera: Camera, world: Seq<Sphere>, materials: Seq<Material>,
    i: int, j: int, width: int, height: int, depth: int, ju: int, jv: int, col: Colour) -> bool {
    let u = spec_fdiv(i * FP_ONE + ju, (width - 1) * FP_ONE);
    let v = spec_fdiv(j * FP_ONE + jv, (height - 1) * FP_ONE);
    let r = spec_camera_ray(camera, u, v);
    &&& 0 <= ju < FP_ONE
    &&& 0 <= jv < FP_ONE
    &&& colour_in_unit(col)
    &&& spec_shade_ok(world, materials, r, depth as nat, col)
}

/// One admissible sample for pixel `(i, j)`, for some jitter pair.
pub open spec fn spec_pixel_sample(camera: Camera, world: Seq<Sphere>, materials: Seq<Material>,
    i: int, j: int, width: int, height: int, depth: int, col: Colour) -> bool {
    exists|ju: int, jv: int|
        #[trigger] spec_sample_ok(camera, world, materials, i, j, width, height, depth, ju, jv,
            col)
}

/// The accumulated pixel estimate: one admissible sample per draw, summed
/// componentwise.
pub open spec fn spec_pixel_accum(camera: Camera, world: Seq<Sphere>, materials: Seq<Material>,
    i: int, j: int, width: int, height: int, samples: int, depth: int, c: Colour) -> bool {
    exists|cols: Seq<Colour>|
        {
            &&& #[trigger] sum_x(cols) == c.x
            &&& sum_y(cols) == c.y
            &&& sum_z(cols) == c.z
            &&& cols.len() == samples
            &&& forall|k: int|
                0 <= k < cols.len() ==> spec_pixel_sample(camera, world, materials, i, j, width,
                    height, depth, #[trigger] cols[k])
        }
}

/// One pixel's accumulated (not yet averaged) colour: the sum of
/// `samples` jittered camera rays shaded through the world.
pub fn pixel_colour(camera: &Camera, world: &HitList, materials: &Vec<Material>,
    rng: &mut Sampler, i: usize, j: usize, width: usize, height: usize, samples: u32, depth: u32)
    -> (c: Colour)
    requires
        wf_camera(*camera),
        world.wf(),
        forall|k: int| 0 <= k < materials@.len() ==> wf_material(#[trigger] materials@[k]),
        2 <= width <= 4096,
        2 <= height <= 4096,
        i < width,
        j < height,
        1 <= samples <= 0x10_0000,
    ensures
        0 <= c.x <= samples as int * FP_ONE,
        0 <= c.y <= samples as int * FP_ONE,
        0 <= c.z <= samples as int * FP_ONE,
        spec_pixel_accum(*camera, world.spheres(), materials@, i as int, j as int, width as int,
            height as int, samples as int, depth as int, c),
{
    let mut accum = Vec3::new(0, 0, 0);
    let ghost mut cols: Seq<Colour> = Seq::empty();
    let mut s: u32 = 0;
    while s < samples
        invariant
            wf_camera(*camera),
            world.wf(),
            forall|k: int| 0 <= k < materials@.len() ==> wf_material(#[trigger] materials@[k]),
            2 <= width <= 4096,
            2 <= height <= 4096,
            i < width,
            j < height,
            1 <= samples <= 0x10_0000,
            s <= samples,
            0 <= accum.x <= s as int * FP_ONE,
            0 <= accum.y <= s as int * FP_ONE,
            0 <= accum.z <= s as int * FP_ONE,
            cols.len() == s as int,
            accum.x == sum_x(cols),
            accum.y == sum_y(cols),
            accum.z == sum_z(cols),
            forall|k: int|
                0 <= k < cols.len() ==> spec_pixel_sample(*camera, world.spheres(), materials@,
                    i as int, j as int, width as int, height as int, depth as int,
                    #[trigger] cols[k]),
        decreases samples - s,
    {
        let ju = rng.sample_range(0, FP_ONE);
        let jv = rng.sample_range(0, FP_ONE);
        let wm1: i64 = ((width - 1) as i64) * FP_ONE;
        let hm1: i64 = ((height - 1) as i64) * FP_ONE;
        let un: i64 = (i as i64) * FP_ONE + ju;
        let vn: i64 = (j as i64) * FP_ONE + jv;
        proof {
            vstd::arithmetic::div_mod::lemma_div_by_multiple(2 * FP_ONE as int, wm1 as int);
            lemma_tdiv_mono(un as int * FP_ONE, 2 * FP_ONE * wm1 as int, wm1 as int);
            lemma_tdiv_abs(un as int * FP_ONE, wm1 as int, 2 * FP_ONE * wm1 as int);
            vstd::arithmetic::div_mod::lemma_div_by_multiple(2 * FP_ONE as int, hm1 as int);
            lemma_tdiv_mono(vn as int * FP_ONE, 2 * FP_ONE * hm1 as int, hm1 as int);
            lemma_tdiv_abs(vn as int * FP_ONE, hm1 as int, 2 * FP_ONE * hm1 as int);
        }
        let u = fdiv(un, wm1);
        let v = fdiv(vn, hm1);
        let r = camera.get_ray(u, v);
        let col = ray_colour(&r, world, materials, rng, depth);
        accum = accum.add(&col);
        proof {
            assert(spec_sample_ok(*camera, world.spheres(), materials@, i as int, j as int,
                width as int, height as int, depth as int, ju as int, jv as int, col));
            let prev = cols;
            cols = prev.push(col);
            assert(cols.drop_last() =~= prev);
            assert(cols.last() == col);
            assert forall|k: int|
                0 <= k < cols.len() implies spec_pixel_sample(*camera, world.spheres(),
                materials@, i as int, j as int, width as int, height as int, depth as int,
                #[trigger] cols[k]) by {
                if k < prev.len() {
                    assert(cols[k] == prev[k]);
                } else {
                    assert(cols[k] == col);
                }
            }
        }
        s = s + 1;
    }
    proof {
        assert(spec_pixel_accum(*camera, world.spheres(), materials@, i as int, j as int,
            width as int, height as int, samples as int, depth as int, accum));
    }
    accum
}

/// One finished frame entry: for row `a` from the top of the image and
/// column `b`, the channels are the finishing of some admissible
/// accumulated estimate for pixel `(b, height - 1 - a)`.
pub open spec fn spec_frame_pixel(camera: Camera, world: Seq<Sphere>, materials: Seq<Material>,
    width: int, height: int, samples: int, depth: int, a: int, b: int, px: (u32, u32, u32))
    -> bool {
    exists|pc: Colour|
        {
            &&& #[trigger] spec_pixel_accum(camera, world, materials, b, height - 1 - a, width,
                height, samples, depth, pc)
            &&& 0 <= pc.x <= samples * FP_ONE
            &&& 0 <= pc.y <= samples * FP_ONE
            &&& 0 <= pc.z <= samples * FP_ONE
            &&& px.0 == spec_channel(pc.x as int, samples)
            &&& px.1 == spec_channel(pc.y as int, samples)
            &&& px.2 == spec_channel(pc.z as int, samples)
        }
}

/// Render a full frame: pixels in top-to-bottom, left-to-right scan order,
/// each finished to RGB channels in `[0, 255]`. The whole frame is a pure
/// function of the scene, the dimensions and the seed.
pub fn render_frame(camera: &Camera, world: &HitList, materials: &Vec<Material>, seed: u64,
    width: usize, height: usize, samples: u32, depth: u32) -> (frame: Vec<(u32, u32, u32)>)
    requires
        wf_camera(*camera),
        world.wf(),
        forall|k: int| 0 <= k < materials@.len() ==> wf_material(#[trigger] materials@[k]),
        2 <= width <= 4096,
        2 <= height <= 4096,
        1 <= samples <= 0x10_0000,
    ensures
        frame@.len() == width as int * height as int,
        forall|k: int|
            0 <= k < frame@.len() ==> (#[trigger] frame@[k]).0 <= 255 && frame@[k].1 <= 255
                && frame@[k].2 <= 255,
        forall|a: int, b: int|
            0 <= a < height as int && 0 <= b < width as int ==> spec_frame_pixel(*camera,
                world.spheres(), materials@, width as int, height as int, samples as int, depth as int, a, b,
                #[trigger] frame@[a * (width as int) + b]),
{
    let mut rng = Sampler::from_seed(seed);
    let mut frame: Vec<(u32, u32, u32)> = Vec::new();
    let mut jj: usize = 0;
    while jj < height
        invariant
            wf_camera(*camera),
            world.wf(),
            forall|k: int| 0 <= k < materials@.len() ==> wf_material(#[trigger] materials@[k]),
            2 <= width <= 4096,
            2 <= height <= 4096,
            1 <= samples <= 0x10_0000,
            jj <= height,
            frame@.len() == jj as int * width as int,
            forall|k: int|
                0 <= k < frame@.len() ==> (#[trigger] frame@[k]).0 <= 255 && frame@[k].1 <= 255
                    && frame@[k].2 <= 255,
            forall|a: int, b: int|
                0 <= a < jj as int && 0 <= b < width as int ==> spec_frame_pixel(*camera,
                    world.spheres(), materials@, width as int, height as int, samples as int, depth as int,
                    a, b, #[trigger] frame@[a * (width as int) + b]),
        decreases height - jj,
    {
        let j = height - 1 - jj;
        let mut i: usize = 0;
        while i < width
            invariant
                wf_camera(*camera),
                world.wf(),
                forall|k: int| 0 <= k < materials@.len() ==> wf_material(#[trigger] materials@[k]),
                2 <= width <= 4096,
                2 <= height <= 4096,
                1 <= samples <= 0x10_0000,
                jj < height,
                j == height - 1 - jj,
                i <= width,
                frame@.len() == jj as int * width as int + i as int,
                forall|k: int|
                    0 <= k < frame@.len() ==> (#[trigger] frame@[k]).0 <= 255 && frame@[k].1
                        <= 255 && frame@[k].2 <= 255,
                forall|a: int, b: int|
                    (0 <= a < jj as int && 0 <= b < width as int) || (a == jj as int && 0 <= b
                        < i as int) ==> spec_frame_pixel(*camera, world.spheres(), materials@,
                        width as int, height as int, samples as int, depth as int, a, b,
                        #[trigger] frame@[a * (width as int) + b]),
            decreases width - i,
        {
            let pc = pixel_colour(camera, world, materials, &mut rng, i, j, width, height,
                samples, depth);
            let rgb = colour_to_rgb(pc, samples);
            let ghost prior = frame@;
            frame.push(rgb);
            proof {
                assert(spec_frame_pixel(*camera, world.spheres(), materials@, width as int,
                    height as int, samples as int, depth as int, jj as int, i as int, rgb));
                assert forall|a: int, b: int|
                    (0 <= a < jj as int && 0 <= b < width as int) || (a == jj as int && 0 <= b
                        < i as int + 1) implies spec_frame_pixel(*camera, world.spheres(),
                    materials@, width as int, height as int, samples as int, depth as int, a, b,
                    #[trigger] frame@[a * (width as int) + b]) by {
                    let idx = a * (width as int) + b;
                    if a == jj as int && b == i as int {
                        assert(idx == prior.len());
                        assert(frame@[idx] == rgb);
                    } else {
                        assert(idx < prior.len()) by (nonlinear_arith)
                            requires
                                prior.len() == jj as int * width as int + i as int && ((0 <= a
                                    < jj as int && 0 <= b < width as int) || (a == jj as int && 0
                                    <= b < i as int)) && idx == a * (width as int) + b,
                        ;
                        assert(0 <= idx) by (nonlinear_arith)
                            requires
                                idx == a * (width as int) + b && 0 <= a && 0 <= b && width >= 2,
                        ;
                        assert(frame@[idx] == prior[idx]);
                    }
                }
            }
            i = i + 1;
        }
        proof {
            assert((jj + 1) as int * width as int == jj as int * width as int + width as int)
                by (nonlinear_arith);
        }
        jj = jj + 1;
    }
    proof {
        assert(height as int * width as int == width as int * height as int) by (nonlinear_arith);
    }
    frame
}

} // verus!
