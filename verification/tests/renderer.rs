use pathtrace::camera::Camera;
use pathtrace::fixed::{FP_ONE, T_MAX};
use pathtrace::hit::{HitList, HitRecord, Sphere};
use pathtrace::material::{Lambertian, Material, Metal};
use pathtrace::ray::Ray;
use pathtrace::render::{colour_to_rgb, ray_colour, render_frame, T_EPSILON};
use pathtrace::rng::Sampler;
use pathtrace::vec3::Vec3;

fn v(x: i64, y: i64, z: i64) -> Vec3 {
    Vec3::new(x, y, z)
}

fn grey_lambertian() -> Material {
    Material::Lambertian(Lambertian::new(v(FP_ONE / 2, FP_ONE / 2, FP_ONE / 2)))
}

fn two_sphere_scene() -> (HitList, Vec<Material>) {
    let mut world = HitList::new();
    let materials = vec![grey_lambertian()];
    world.add(Sphere {
        center: v(0, -100 * FP_ONE - FP_ONE / 2, -FP_ONE),
        radius: 100 * FP_ONE,
        material: 0,
    });
    world.add(Sphere {
        center: v(0, FP_ONE / 5, -FP_ONE - FP_ONE / 2),
        radius: FP_ONE / 2,
        material: 0,
    });
    (world, materials)
}

#[test]
fn vector_arithmetic_is_exact() {
    let a = v(FP_ONE, 2 * FP_ONE, -3 * FP_ONE);
    let b = v(10, -20, 30);
    let s = a.add(&b);
    assert_eq!((s.x(), s.y(), s.z()), (FP_ONE + 10, 2 * FP_ONE - 20, -3 * FP_ONE + 30));
    let d = a.sub(&b);
    assert_eq!((d.x(), d.y(), d.z()), (FP_ONE - 10, 2 * FP_ONE + 20, -3 * FP_ONE - 30));
    let n = a.neg();
    assert_eq!((n.x(), n.y(), n.z()), (-FP_ONE, -2 * FP_ONE, 3 * FP_ONE));
    let h = a.scale(FP_ONE / 2);
    assert_eq!((h.x(), h.y(), h.z()), (FP_ONE / 2, FP_ONE, -(3 * FP_ONE) / 2));
}

#[test]
fn dot_and_length_formulas() {
    let a = v(3 * FP_ONE, 4 * FP_ONE, 0);
    assert_eq!(a.length_squared(), 25 * FP_ONE);
    assert_eq!(a.length(), 5 * FP_ONE);
    let b = v(FP_ONE, -FP_ONE, 2 * FP_ONE);
    assert_eq!(a.dot(b), 3 * FP_ONE - 4 * FP_ONE);
}

#[test]
fn unit_of_axis_vector_is_exact() {
    let a = v(0, 0, 7 * FP_ONE);
    let u = a.unit();
    assert_eq!((u.x(), u.y(), u.z()), (0, 0, FP_ONE));
    assert_eq!(u.length(), FP_ONE);
}

#[test]
fn unit_length_is_near_one() {
    let a = v(3 * FP_ONE, 4 * FP_ONE, 0);
    let u = a.unit();
    let ls = u.length_squared();
    assert!(FP_ONE - 13 <= ls && ls <= FP_ONE + 16, "squared length {ls}");
    assert!(FP_ONE - 7 <= u.length() && u.length() <= FP_ONE + 8);
    let b = v(-7 * FP_ONE / 3, FP_ONE / 2, 5 * FP_ONE);
    let ub = b.unit();
    let lsb = ub.length_squared();
    assert!(FP_ONE - 13 <= lsb && lsb <= FP_ONE + 16, "squared length {lsb}");
    assert!(FP_ONE - 7 <= ub.length() && ub.length() <= FP_ONE + 8);
}

#[test]
fn cross_product_is_orthogonal() {
    let a = v(FP_ONE, 2 * FP_ONE, 3 * FP_ONE);
    let b = v(4 * FP_ONE, 5 * FP_ONE, 6 * FP_ONE);
    let c = a.cross(b);
    assert_eq!((c.x(), c.y(), c.z()), (-3 * FP_ONE, 6 * FP_ONE, -3 * FP_ONE));
    assert_eq!(a.dot(c), 0);
    assert_eq!(b.dot(c), 0);
}

#[test]
fn random_in_unit_sphere_stays_inside_and_mean_matches() {
    let mut rng = Sampler::from_seed(7);
    let mut total_length: i64 = 0;
    let draws = 10_000;
    for _ in 0..draws {
        let p = Vec3::random_in_unit_sphere(&mut rng);
        assert!(p.length_squared() < FP_ONE);
        total_length += p.length();
    }
    // the mean norm of a uniform ball sample is three quarters
    let mean = total_length / draws;
    assert!(48000 < mean && mean < 50300, "mean norm {mean}");
}

#[test]
fn random_in_hemisphere_points_with_normal() {
    let mut rng = Sampler::from_seed(11);
    let normals = [v(0, FP_ONE, 0), v(FP_ONE, 0, 0), v(-FP_ONE, -FP_ONE, FP_ONE)];
    for n in normals {
        for _ in 0..1000 {
            let r = n.random_in_hemisphere(&mut rng);
            assert!(r.dot(n) >= 0);
        }
    }
}

#[test]
fn random_in_range_respects_bounds() {
    let mut rng = Sampler::from_seed(3);
    for _ in 0..1000 {
        let p = Vec3::random_in_range(&mut rng, 5, 10);
        for c in [p.x(), p.y(), p.z()] {
            assert!(5 <= c && c < 10);
        }
    }
}

#[test]
fn sphere_head_on_hit_reports_front_face() {
    let sphere = Sphere { center: v(0, 0, -FP_ONE), radius: FP_ONE / 2, material: 0 };
    let ray = Ray::new(v(0, 0, 0), v(0, 0, -FP_ONE));
    let rec = sphere.hit(&ray, 0, T_MAX).expect("the ray points at the sphere");
    assert_eq!(rec.t, FP_ONE / 2);
    assert!(rec.front_face);
    assert_eq!((rec.normal.x(), rec.normal.y(), rec.normal.z()), (0, 0, FP_ONE));
    assert_eq!((rec.p.x(), rec.p.y(), rec.p.z()), (0, 0, -FP_ONE / 2));
}

#[test]
fn sphere_miss_and_degenerate_direction_report_nothing() {
    let sphere = Sphere { center: v(0, 0, -2 * FP_ONE), radius: FP_ONE / 2, material: 0 };
    let up = Ray::new(v(0, 0, 0), v(0, FP_ONE, 0));
    assert!(sphere.hit(&up, T_EPSILON, T_MAX).is_none());
    let zero = Ray::new(v(0, 0, 0), v(0, 0, 0));
    assert!(sphere.hit(&zero, T_EPSILON, T_MAX).is_none());
}

#[test]
fn world_nearest_hit_wins_in_both_orders() {
    let near = Sphere { center: v(0, 0, -2 * FP_ONE), radius: FP_ONE, material: 0 };
    let far = Sphere { center: v(0, 0, -3 * FP_ONE), radius: FP_ONE, material: 1 };
    let ray = Ray::new(v(0, 0, 0), v(0, 0, -FP_ONE));

    let mut world = HitList::new();
    world.add(near);
    world.add(far);
    let rec = world.hit(&ray, T_EPSILON, T_MAX).expect("both spheres lie on the ray");
    assert_eq!(rec.t, FP_ONE);
    assert_eq!(rec.material, 0);

    let mut swapped = HitList::new();
    swapped.add(far);
    swapped.add(near);
    let rec2 = swapped.hit(&ray, T_EPSILON, T_MAX).expect("both spheres lie on the ray");
    assert_eq!(rec2.t, FP_ONE);
    assert_eq!(rec2.material, 0);
}

#[test]
fn world_empty_and_cleared_report_nothing() {
    let ray = Ray::new(v(0, 0, 0), v(0, 0, -FP_ONE));
    let empty = HitList::new();
    assert!(empty.hit(&ray, T_EPSILON, T_MAX).is_none());
    let mut world = HitList::new();
    world.add(Sphere { center: v(0, 0, -2 * FP_ONE), radius: FP_ONE, material: 0 });
    world.clear();
    assert!(world.hit(&ray, T_EPSILON, T_MAX).is_none());
}

#[test]
fn hit_record_orients_normal_against_ray() {
    let ray = Ray::new(v(0, 0, 0), v(0, 0, -FP_ONE));
    let toward = HitRecord::new(&ray, v(0, 0, -FP_ONE), v(0, 0, FP_ONE), FP_ONE, 0);
    assert!(toward.front_face);
    assert_eq!(toward.normal.z(), FP_ONE);
    let away = HitRecord::new(&ray, v(0, 0, -FP_ONE), v(0, 0, -FP_ONE), FP_ONE, 0);
    assert!(!away.front_face);
    assert_eq!(away.normal.z(), FP_ONE);
}

#[test]
fn lambertian_always_scatters() {
    let mut rng = Sampler::from_seed(21);
    let albedo = v(FP_ONE / 2, FP_ONE / 4, FP_ONE / 8);
    let material = Material::Lambertian(Lambertian::new(albedo));
    let ray = Ray::new(v(0, 0, 0), v(0, 0, -FP_ONE));
    let rec = HitRecord::new(&ray, v(0, 0, -FP_ONE), v(0, 0, FP_ONE), FP_ONE, 0);
    for _ in 0..100 {
        let (attenuation, scattered) =
            material.scatter(&mut rng, &ray, &rec).expect("a diffuse surface always scatters");
        assert_eq!((attenuation.x(), attenuation.y(), attenuation.z()), (albedo.x(), albedo.y(), albedo.z()));
        assert_eq!((scattered.origin.x(), scattered.origin.y(), scattered.origin.z()), (0, 0, -FP_ONE));
    }
}

#[test]
fn metal_with_zero_fuzz_reflects_exactly() {
    let mut rng = Sampler::from_seed(5);
    let albedo = v(FP_ONE / 2, FP_ONE / 2, FP_ONE / 2);
    let material = Material::Metal(Metal::new(albedo, 0));
    let sphere = Sphere { center: v(0, 0, -2 * FP_ONE), radius: FP_ONE, material: 0 };
    let ray = Ray::new(v(0, 0, 0), v(0, 0, -FP_ONE));
    let rec = sphere.hit(&ray, T_EPSILON, T_MAX).expect("head-on hit");
    assert_eq!(rec.t, FP_ONE);
    let (attenuation, scattered) =
        material.scatter(&mut rng, &ray, &rec).expect("a head-on reflection leaves the surface");
    assert_eq!((attenuation.x(), attenuation.y(), attenuation.z()), (albedo.x(), albedo.y(), albedo.z()));
    assert_eq!(
        (scattered.direction.x(), scattered.direction.y(), scattered.direction.z()),
        (0, 0, FP_ONE)
    );
}

#[test]
fn metal_scattered_direction_points_away() {
    let mut rng = Sampler::from_seed(29);
    let albedo = v(FP_ONE / 2, FP_ONE / 2, FP_ONE / 2);
    let material = Material::Metal(Metal::new(albedo, FP_ONE));
    let sphere = Sphere { center: v(0, 0, -2 * FP_ONE), radius: FP_ONE, material: 0 };
    // a grazing ray, where a full-strength perturbation can turn the
    // reflection back into the surface
    let ray = Ray::new(v(0, FP_ONE / 2, 0), v(0, 2949, -FP_ONE));
    let rec = sphere.hit(&ray, T_EPSILON, T_MAX).expect("the ray grazes the sphere");
    let mut scattered_seen = 0;
    let mut absorbed_seen = 0;
    for _ in 0..500 {
        match material.scatter(&mut rng, &ray, &rec) {
            Some((_, out)) => {
                assert!(out.direction.dot(rec.normal) > 0);
                scattered_seen += 1;
            }
            None => absorbed_seen += 1,
        }
    }
    assert!(scattered_seen > 0 && absorbed_seen > 0);
}

#[test]
fn random_unit_vector_is_near_unit() {
    let mut rng = Sampler::from_seed(31);
    for _ in 0..1000 {
        let u = Vec3::random_unit_vector(&mut rng);
        let ls = u.length_squared();
        assert!(FP_ONE - 13 <= ls && ls <= FP_ONE + 16, "squared length {ls}");
    }
}

#[test]
fn metal_fuzz_is_clamped_at_construction() {
    let albedo = v(FP_ONE / 2, FP_ONE / 2, FP_ONE / 2);
    assert_eq!(Metal::new(albedo, -5).fuzz, 0);
    assert_eq!(Metal::new(albedo, 3 * FP_ONE).fuzz, FP_ONE);
    assert_eq!(Metal::new(albedo, 123).fuzz, 123);
}

#[test]
fn camera_geometry_is_exact() {
    let camera = Camera::new();
    assert_eq!((camera.origin.x(), camera.origin.y(), camera.origin.z()), (0, 0, 0));
    assert_eq!(camera.horizontal.x(), 233016);
    assert_eq!(camera.vertical.y(), 2 * FP_ONE);
    assert_eq!(
        (
            camera.lower_left_corner.x(),
            camera.lower_left_corner.y(),
            camera.lower_left_corner.z()
        ),
        (-116508, -FP_ONE, -FP_ONE)
    );
    let centre = camera.get_ray(FP_ONE / 2, FP_ONE / 2);
    assert_eq!(
        (centre.direction.x(), centre.direction.y(), centre.direction.z()),
        (0, 0, -FP_ONE)
    );
}

#[test]
fn miss_shades_to_exact_background() {
    let (world, materials) = two_sphere_scene();
    let mut rng = Sampler::from_seed(9);
    let up = Ray::new(v(0, 0, 0), v(0, FP_ONE, 0));
    let c = ray_colour(&up, &world, &materials, &mut rng, 5);
    // straight up is the zenith: exactly the sky colour
    assert_eq!((c.x(), c.y(), c.z()), (32768, 45875, FP_ONE));
}

#[test]
fn depth_zero_is_black_everywhere() {
    let (world, materials) = two_sphere_scene();
    let mut rng = Sampler::from_seed(13);
    let rays = [
        Ray::new(v(0, 0, 0), v(0, FP_ONE, 0)),
        Ray::new(v(0, 0, 0), v(0, 0, -FP_ONE)),
        Ray::new(v(0, 0, 0), v(1000, 2000, -FP_ONE)),
    ];
    for ray in rays {
        let c = ray_colour(&ray, &world, &materials, &mut rng, 0);
        assert_eq!((c.x(), c.y(), c.z()), (0, 0, 0));
    }
}

#[test]
fn degenerate_direction_shades_to_black() {
    let (world, materials) = two_sphere_scene();
    let mut rng = Sampler::from_seed(17);
    let zero = Ray::new(v(0, 0, 0), v(0, 0, 0));
    let c = ray_colour(&zero, &world, &materials, &mut rng, 5);
    assert_eq!((c.x(), c.y(), c.z()), (0, 0, 0));
}

#[test]
fn unmapped_material_shades_to_black() {
    let mut world = HitList::new();
    world.add(Sphere { center: v(0, 0, -2 * FP_ONE), radius: FP_ONE, material: 7 });
    let materials = vec![grey_lambertian()];
    let mut rng = Sampler::from_seed(19);
    let ray = Ray::new(v(0, 0, 0), v(0, 0, -FP_ONE));
    let c = ray_colour(&ray, &world, &materials, &mut rng, 5);
    assert_eq!((c.x(), c.y(), c.z()), (0, 0, 0));
}

#[test]
fn channel_finishing_matches_formula() {
    let accumulated = v(FP_ONE, FP_ONE / 4, 0);
    let rgb = colour_to_rgb(accumulated, 1);
    // full brightness clamps just below one, half squared gamma-corrects to half
    assert_eq!(rgb, (255, 127, 0));
    let summed = v(4 * FP_ONE, FP_ONE, 0);
    assert_eq!(colour_to_rgb(summed, 4), (255, 127, 0));
}

#[test]
fn render_is_deterministic_for_a_seed() {
    let camera = Camera::new();
    let (world, materials) = two_sphere_scene();
    let first = render_frame(&camera, &world, &materials, 42, 24, 14, 4, 5);
    let second = render_frame(&camera, &world, &materials, 42, 24, 14, 4, 5);
    assert_eq!(first.len(), 24 * 14);
    assert_eq!(first, second);
    for (r, g, b) in &first {
        assert!(*r <= 255 && *g <= 255 && *b <= 255);
    }
}
