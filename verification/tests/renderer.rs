use ray_tracer::camera::Camera;
use ray_tracer::fixed::{clamp_i64, fx_div, fx_mul, fx_sqrt, SCALE};
use ray_tracer::material::{Hemispherical, Lambertian, Material, Refractive, Specular, Spherical};
use ray_tracer::math::{Aabb, Curve, Ray, Vec3};
use ray_tracer::object::{Face, Hit, Sphere};
use ray_tracer::rng::RandomSource;
use ray_tracer::scene::{sky, Scene};

fn red_material() -> Material {
    Material::Lambertian(Lambertian {
        albedo: Vec3(65536, 0, 0),
    })
}

fn head_on_ray() -> Ray {
    Ray {
        origin: Vec3(0, 0, 0),
        direction: Vec3(0, 0, -65536),
        time: 0,
    }
}

fn unit_sphere_at_minus_four() -> Sphere {
    Sphere {
        center: Curve::Constant(Vec3(0, 0, -4 * 65536)),
        radius: 65536,
        material: red_material(),
    }
}

#[test]
fn fixed_mul_is_exact_on_whole_values() {
    assert_eq!(fx_mul(2 * SCALE, 3 * SCALE), 6 * SCALE);
    assert_eq!(fx_mul(-2 * SCALE, 3 * SCALE), -6 * SCALE);
    // 1.5 * -1.5 == -2.25, representable exactly
    assert_eq!(fx_mul(98304, -98304), -147456);
}

#[test]
fn fixed_div_truncates_toward_zero() {
    // 1 / 3 rounds down to 21845/65536
    assert_eq!(fx_div(SCALE, 3 * SCALE), 21845);
    // -1 / 3 rounds toward zero, not toward negative infinity
    assert_eq!(fx_div(-SCALE, 3 * SCALE), -21845);
    assert_eq!(fx_div(6 * SCALE, 2 * SCALE), 3 * SCALE);
}

#[test]
fn fixed_sqrt_brackets_the_root() {
    assert_eq!(fx_sqrt(4 * SCALE), 2 * SCALE);
    assert_eq!(fx_sqrt(SCALE), SCALE);
    assert_eq!(fx_sqrt(0), 0);
    // sqrt(2) in fixed point, rounded down
    assert_eq!(fx_sqrt(2 * SCALE), 92681);
}

#[test]
fn clamp_bounds_both_sides() {
    assert_eq!(clamp_i64(5, 0, 10), 5);
    assert_eq!(clamp_i64(-5, 0, 10), 0);
    assert_eq!(clamp_i64(15, 0, 10), 10);
}

#[test]
fn vector_dot_and_cross_are_exact() {
    let a = Vec3(SCALE, 2 * SCALE, 3 * SCALE);
    let b = Vec3(4 * SCALE, 5 * SCALE, 6 * SCALE);
    assert_eq!(a.dot(b), 32 * SCALE);
    assert_eq!(a.cross(b), Vec3(-3 * SCALE, 6 * SCALE, -3 * SCALE));
}

#[test]
fn vector_len_and_unit_on_a_pythagorean_triple() {
    let v = Vec3(3 * SCALE, 4 * SCALE, 0);
    assert_eq!(v.len(), 5 * SCALE);
    // each component is scaled by 1/5, truncated
    assert_eq!(v.unit(), Vec3(39321, 52428, 0));
}

#[test]
fn vector_component_arithmetic() {
    let a = Vec3(SCALE, -SCALE, 2 * SCALE);
    let b = Vec3(SCALE, SCALE, SCALE);
    assert_eq!(a.plus(b), Vec3(2 * SCALE, 0, 3 * SCALE));
    assert_eq!(a.minus(b), Vec3(0, -2 * SCALE, SCALE));
    assert_eq!(a.neg(), Vec3(-SCALE, SCALE, -2 * SCALE));
    assert_eq!(a.scale(2 * SCALE), Vec3(2 * SCALE, -2 * SCALE, 4 * SCALE));
    assert_eq!(a.hadamard(b), a);
    assert_eq!(a.div_s(2 * SCALE), Vec3(32768, -32768, SCALE));
}

#[test]
fn ray_reaches_the_scaled_point() {
    let r = head_on_ray();
    assert_eq!(r.at(2 * SCALE), Vec3(0, 0, -2 * SCALE));
}

#[test]
fn curve_interpolates_between_keyframes() {
    let c = Curve::Linear(Vec3(0, 0, 0), Vec3(SCALE, 0, 0), 0, SCALE);
    assert_eq!(c.at(0), Vec3(0, 0, 0));
    assert_eq!(c.at(SCALE), Vec3(SCALE, 0, 0));
    assert_eq!(c.at(SCALE / 2), Vec3(SCALE / 2, 0, 0));
    // extrapolation past the window is accepted, not an error
    assert_eq!(c.at(2 * SCALE), Vec3(2 * SCALE, 0, 0));
    let fixed = Curve::Constant(Vec3(7, 8, 9));
    assert_eq!(fixed.at(12345), Vec3(7, 8, 9));
}

#[test]
fn aabb_merge_takes_component_extremes() {
    let a = Aabb {
        min: Vec3(0, -SCALE, 0),
        max: Vec3(SCALE, 0, SCALE),
    };
    let b = Aabb {
        min: Vec3(-SCALE, 0, 0),
        max: Vec3(0, SCALE, 2 * SCALE),
    };
    let m = a.merge(b);
    assert_eq!(m.min, Vec3(-SCALE, -SCALE, 0));
    assert_eq!(m.max, Vec3(SCALE, SCALE, 2 * SCALE));
}

#[test]
fn aabb_slab_test_accepts_and_rejects() {
    let bb = Aabb {
        min: Vec3(-SCALE, -SCALE, -3 * SCALE),
        max: Vec3(SCALE, SCALE, -2 * SCALE),
    };
    let toward = head_on_ray();
    assert!(bb.hit(toward, 0, 100 * SCALE));
    let away = Ray {
        origin: Vec3(0, 0, 0),
        direction: Vec3(0, 0, 65536),
        time: 0,
    };
    assert!(!bb.hit(away, 0, 100 * SCALE));
}

#[test]
fn sphere_aabb_boxes_the_radius() {
    let s = unit_sphere_at_minus_four();
    let bb = s.aabb(0, 0);
    assert_eq!(bb.min, Vec3(-SCALE, -SCALE, -5 * SCALE));
    assert_eq!(bb.max, Vec3(SCALE, SCALE, -3 * SCALE));
}

#[test]
fn head_on_hit_reports_distance_and_outward_normal() {
    // distance(origin, center) - radius == 3, and the normal is the unit
    // vector from the center back toward the origin
    let s = unit_sphere_at_minus_four();
    let h = s.hit(head_on_ray(), 0, 100 * SCALE).unwrap();
    assert_eq!(h.distance, 3 * SCALE);
    assert_eq!(h.point, Vec3(0, 0, -3 * SCALE));
    assert_eq!(h.normal, Vec3(0, 0, SCALE));
    assert_eq!(h.face, Face::Front);
}

#[test]
fn ray_missing_the_bounding_sphere_reports_none() {
    let s = unit_sphere_at_minus_four();
    let sideways = Ray {
        origin: Vec3(0, 0, 0),
        direction: Vec3(0, 65536, 0),
        time: 0,
    };
    assert!(s.hit(sideways, 0, 100 * SCALE).is_none());
}

#[test]
fn hit_distance_stays_inside_the_window() {
    let s = unit_sphere_at_minus_four();
    // the near root at 3 lies beyond the window
    assert!(s.hit(head_on_ray(), 0, 2 * SCALE).is_none());
    // the near root at 3 lies below the window; the far root at 5 is taken
    let far = s.hit(head_on_ray(), 4 * SCALE, 100 * SCALE).unwrap();
    assert_eq!(far.distance, 5 * SCALE);
    // leaving the sphere from inside strikes the back face, and the stored
    // normal still opposes the ray
    assert_eq!(far.face, Face::Back);
    assert_eq!(far.normal, Vec3(0, 0, SCALE));
    // a window excluding both roots reports a miss
    assert!(s.hit(head_on_ray(), 6 * SCALE, 100 * SCALE).is_none());
}

#[test]
fn hit_record_orients_the_normal_against_the_ray() {
    let r = head_on_ray();
    let kept = Hit::new(r, SCALE, Vec3(0, 0, -SCALE), Vec3(0, 0, SCALE), red_material());
    assert_eq!(kept.normal, Vec3(0, 0, SCALE));
    assert_eq!(kept.face, Face::Front);
    let flipped = Hit::new(r, SCALE, Vec3(0, 0, -SCALE), Vec3(0, 0, -SCALE), red_material());
    assert_eq!(flipped.normal, Vec3(0, 0, SCALE));
    assert_eq!(flipped.face, Face::Back);
}

#[test]
fn grazing_contact_counts_as_a_back_face() {
    // at a dot product of exactly zero the ray runs along the surface,
    // which the front/back rule classes as inside, moving outward
    let r = head_on_ray();
    let grazing = Hit::new(r, SCALE, Vec3(0, 0, -SCALE), Vec3(SCALE, 0, 0), red_material());
    assert_eq!(grazing.face, Face::Back);
    assert_eq!(grazing.normal, Vec3(-SCALE, 0, 0));
}

#[test]
fn specular_with_zero_fuzziness_is_an_exact_mirror() {
    let r = head_on_ray();
    let hit = Hit::new(r, 3 * SCALE, Vec3(0, 0, -3 * SCALE), Vec3(0, 0, SCALE), red_material());
    let metal = Specular {
        albedo: Vec3(45875, 39321, 32768),
        fuzziness: 0,
    };
    let mut source = RandomSource::new(11);
    let red = metal.redirect(&hit, &mut source).unwrap();
    // the geometric reflection of (0,0,-1) about (0,0,1) is (0,0,1), exactly
    assert_eq!(red.direction, Vec3(0, 0, SCALE));
    assert_eq!(red.albedo, metal.albedo);
}

#[test]
fn refraction_with_index_one_passes_straight_through() {
    let r = head_on_ray();
    let hit = Hit::new(r, 3 * SCALE, Vec3(0, 0, -3 * SCALE), Vec3(0, 0, SCALE), red_material());
    let glass = Refractive {
        albedo: Vec3(65536, 65536, 65536),
        index: 65536,
    };
    let mut source = RandomSource::new(5);
    for _ in 0..32 {
        let red = glass.redirect(&hit, &mut source).unwrap();
        assert_eq!(red.direction, Vec3(0, 0, -65536));
        assert_eq!(red.albedo, glass.albedo);
    }
}

#[test]
fn dispatcher_keeps_each_policy_promise() {
    let r = head_on_ray();
    let hit = Hit::new(r, 3 * SCALE, Vec3(0, 0, -3 * SCALE), Vec3(0, 0, SCALE), red_material());
    let mut source = RandomSource::new(31);
    // a spherical material never absorbs, through the dispatcher too
    let diffuse = Material::Spherical(Spherical {
        albedo: Vec3(0, 65536, 0),
    });
    for _ in 0..16 {
        let red = diffuse.redirect(&hit, &mut source).unwrap();
        assert_eq!(red.albedo, Vec3(0, 65536, 0));
    }
    // the head-on index-one pass-through survives dispatch unchanged
    let glass = Material::Refractive(Refractive {
        albedo: Vec3(65536, 65536, 65536),
        index: 65536,
    });
    let red = glass.redirect(&hit, &mut source).unwrap();
    assert_eq!(red.direction, Vec3(0, 0, -65536));
    // a hemispherical bounce keeps its albedo and scatters upward here
    let hemi = Material::Hemispherical(Hemispherical {
        albedo: Vec3(32768, 32768, 32768),
    });
    let mut scattered = 0;
    for _ in 0..16 {
        if let Some(red) = hemi.redirect(&hit, &mut source) {
            assert_eq!(red.albedo, Vec3(32768, 32768, 32768));
            scattered += 1;
        }
    }
    assert!(scattered > 0);
}

#[test]
fn lambertian_scatters_with_its_albedo() {
    let r = head_on_ray();
    let hit = Hit::new(r, 3 * SCALE, Vec3(0, 0, -3 * SCALE), Vec3(0, 0, SCALE), red_material());
    let diffuse = Lambertian {
        albedo: Vec3(65536, 0, 0),
    };
    let mut source = RandomSource::new(9);
    let mut scattered = 0;
    for _ in 0..16 {
        if let Some(red) = diffuse.redirect(&hit, &mut source) {
            assert_eq!(red.albedo, diffuse.albedo);
            assert!(red.direction != Vec3(0, 0, 0));
            scattered += 1;
        }
    }
    assert!(scattered > 0);
}

#[test]
fn sky_is_zenith_blue_straight_up_and_white_at_the_floor() {
    assert_eq!(sky(Vec3(0, 65536, 0)), Vec3(32768, 45875, 65536));
    assert_eq!(sky(Vec3(0, -65536, 0)), Vec3(65536, 65536, 65536));
    // halfway up blends the two halves exactly
    assert_eq!(sky(Vec3(65536, 0, 0)), Vec3(32768 + 16384, 45875 / 2 + 32768, 65536));
}

#[test]
fn empty_scene_color_is_exactly_the_sky() {
    let scene = Scene::new();
    let up = Ray {
        origin: Vec3(0, 0, 0),
        direction: Vec3(0, 65536, 0),
        time: 0,
    };
    let mut source = RandomSource::new(3);
    let c = scene.color(up, 66, 100 * SCALE, 10, &mut source);
    assert_eq!(c, Vec3(32768, 45875, 65536));
}

#[test]
fn zero_depth_returns_black() {
    let scene = Scene::new();
    let mut source = RandomSource::new(3);
    let c = scene.color(head_on_ray(), 66, 100 * SCALE, 0, &mut source);
    assert_eq!(c, Vec3(0, 0, 0));
}

#[test]
fn nearest_hit_takes_the_globally_nearest_primitive() {
    let mut scene = Scene::new();
    scene.add(Sphere {
        center: Curve::Constant(Vec3(0, 0, -8 * 65536)),
        radius: 65536,
        material: red_material(),
    });
    scene.add(unit_sphere_at_minus_four());
    let h = scene.nearest_hit(head_on_ray(), 0, 100 * SCALE).unwrap();
    assert_eq!(h.distance, 3 * SCALE);
}

fn forward_camera() -> Camera {
    Camera::new(
        Vec3(0, 0, 0),
        Vec3(0, 0, -65536),
        65536, // square aspect
        16384, // tan of half the field of view: about 28 degrees across
        0,     // no roll: sine 0,
        65536, // cosine 1
        0,     // pinhole: no aperture
        65536, // focal distance 1
        0,
        0,
    )
}

#[test]
fn center_camera_ray_points_forward() {
    let cam = forward_camera();
    let mut source = RandomSource::new(21);
    let r = cam.ray(32768, 32768, &mut source);
    assert_eq!(r.origin, Vec3(0, 0, 0));
    assert_eq!(r.direction, Vec3(0, 0, -65536));
    assert_eq!(r.time, 0);
}

#[test]
fn empty_scene_render_shows_the_sky_gradient() {
    let scene = Scene::new();
    let cam = forward_camera();
    let img = scene.render(4, 4, cam, 66, 100 * SCALE, 8, 5, 1);
    assert_eq!(img.len(), 16);
    for c in &img {
        assert!(0 <= c.0 && c.0 <= 65536);
        assert!(0 <= c.1 && c.1 <= 65536);
        // the sky's blue channel is one for every blend factor
        assert_eq!(c.2, 65536);
    }
}

#[test]
fn red_sphere_tints_the_center_pixel_red() {
    let mut scene = Scene::new();
    scene.add(unit_sphere_at_minus_four());
    let cam = forward_camera();
    let img = scene.render(3, 3, cam, 66, 100 * SCALE, 64, 8, 7);
    let center = img[4];
    assert!(center.0 > center.1);
    assert!(center.0 > center.2);
    assert_eq!(center.1, 0);
    assert_eq!(center.2, 0);
}

#[test]
fn fixed_seed_renders_are_bit_identical() {
    let mut scene = Scene::new();
    scene.add(unit_sphere_at_minus_four());
    let cam = forward_camera();
    let first = scene.render(4, 3, cam, 66, 100 * SCALE, 8, 5, 42);
    let second = scene.render(4, 3, cam, 66, 100 * SCALE, 8, 5, 42);
    assert_eq!(first, second);
    let other = scene.render(4, 3, cam, 66, 100 * SCALE, 8, 5, 43);
    assert_eq!(other.len(), first.len());
}

#[test]
fn different_seeds_converge_on_the_same_expectation() {
    // Monte Carlo estimates from independent streams agree within a
    // tolerance that shrinks with the sample count; half a unit is ample
    // for the sample counts used here.
    let mut scene = Scene::new();
    scene.add(unit_sphere_at_minus_four());
    let cam = forward_camera();
    let a = scene.render(3, 3, cam, 66, 100 * SCALE, 128, 8, 1001);
    let b = scene.render(3, 3, cam, 66, 100 * SCALE, 128, 8, 2002);
    for (pa, pb) in a.iter().zip(b.iter()) {
        assert!((pa.0 - pb.0).abs() < 32768);
        assert!((pa.1 - pb.1).abs() < 32768);
        assert!((pa.2 - pb.2).abs() < 32768);
    }
}

#[test]
fn seeded_draws_are_reproducible_and_bounded() {
    let mut a = RandomSource::new(123);
    let mut b = RandomSource::new(123);
    for _ in 0..64 {
        let x = a.next_below(1000);
        let y = b.next_below(1000);
        assert_eq!(x, y);
        assert!(x < 1000);
        let u = a.next_unit();
        let _ = b.next_unit();
        assert!(0 <= u && u < 65536);
        let ranged = a.next_range(-50, 50);
        let _ = b.next_range(-50, 50);
        assert!(-50 <= ranged && ranged < 50);
    }
}

#[test]
fn unit_sphere_samples_stay_near_the_sphere() {
    let mut source = RandomSource::new(77);
    for _ in 0..64 {
        let s = Vec3::random_on_unit_sphere(&mut source);
        let d = s.dot(s);
        // normalization is exact to within fixed-point rounding
        assert!(d > 0);
        assert!(d < 2 * SCALE);
        let inside = Vec3::random_in_unit_sphere(&mut source);
        assert!(inside.dot(inside) <= SCALE);
        let disk = Vec3::random_in_unit_disk(&mut source);
        assert_eq!(disk.2, 0);
        assert!(disk.dot(disk) <= SCALE);
        let cube = Vec3::random_in_unit_cube(&mut source);
        assert!(0 <= cube.0 && cube.0 < SCALE);
        assert!(0 <= cube.1 && cube.1 < SCALE);
        assert!(0 <= cube.2 && cube.2 < SCALE);
    }
}
