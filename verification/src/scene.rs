//! The scene, the path-tracing integrator and the renderer.
//!
//! The scene is an unordered collection of spheres scanned linearly for the
//! globally nearest hit (`scene_nearest` is the exact mirror, and
//! `lemma_scene_nearest_properties` proves the returned hit is nearest).
//! The integrator bounces a camera ray up to `max_depth` times,
//! multiplying the path color by each struck material's albedo, and ends on
//! the sky gradient, on absorption, or on depth exhaustion; every returned
//! channel is proved to stay in `[0, 1]`.

use vstd::prelude::*;
use vstd::arithmetic::div_mod::{lemma_div_pos_is_pos, lemma_multiply_divide_le, lemma_multiply_divide_lt};
use crate::fixed::{
    SCALE, s_abs, tdiv, fdiv, fits_i64, clamped, lemma_fmul_scale, lemma_fmul_unit_interval,
    fx_div, clamp_i64,
};
use crate::math::{
    Vec3, V3, Ray, RayV, in_range, v3_add, v3_scale, v3_hadamard, v3_dot, ORIGIN_LIMIT,
    DIST_LIMIT,
};
use crate::object::{Sphere, Hit, HitData, sphere_wf, sphere_hit, ray_wf};
use crate::material::{material_wf, albedo_wf};
use crate::camera::camera_wf;
use crate::math::curve_time_ok;
use crate::rng::RandomSource;

pub use crate::camera::Camera;

verus! {

/// Every primitive of the scene is well formed.
pub open spec fn scene_wf(objs: Seq<Sphere>) -> bool {
    forall|i: int|
        0 <= i < objs.len() ==> sphere_wf(#[trigger] objs[i]) && material_wf(objs[i].material)
}

/// Every motion curve of the scene accepts the given time.
pub open spec fn scene_time_ok(objs: Seq<Sphere>, time: int) -> bool {
    forall|i: int| 0 <= i < objs.len() ==> curve_time_ok((#[trigger] objs[i]).center, time)
}

/// The vertical sky gradient: horizon white blending to the zenith blue as
/// the direction's vertical component rises, with the blend factor clamped
/// into the unit interval against out-of-range directions.
pub open spec fn sky_v(dir: V3) -> V3 {
    let t = clamped(tdiv(dir.y + SCALE, 2), 0, SCALE as int);
    v3_add(
        v3_scale(V3 { x: 32768, y: 45875, z: 65536 }, t),
        v3_scale(V3 { x: 65536, y: 65536, z: 65536 }, SCALE as int - t),
    )
}

/// The sky's blue channel is one for every blend factor: the blend gives
/// the zenith and horizon blues weights that sum to exactly one, and both
/// blues are one.
pub proof fn lemma_sky_blue(dir: V3)
    ensures
        sky_v(dir).z == SCALE as int,
{
    let t = clamped(tdiv(dir.y + SCALE, 2), 0, SCALE as int);
    lemma_fmul_scale(t);
    lemma_fmul_scale(SCALE as int - t);
}

/// The component-wise truncated average of per-channel sums over `n`
/// samples.
pub open spec fn avg_of(sums: V3, n: int) -> V3 {
    V3 { x: fdiv(sums.x, n * 65536), y: fdiv(sums.y, n * 65536), z: fdiv(sums.z, n * 65536) }
}

/// The color is the truncated average of `n` samples with channels in the
/// unit interval: per-channel sums bounded by `n` ones yield it.
pub open spec fn averaged_color(c: V3, n: int) -> bool {
    exists|sums: V3|
        (#[trigger] avg_of(sums, n)) == c && 0 <= sums.x <= n * 65536 && 0 <= sums.y <= n * 65536
            && 0 <= sums.z <= n * 65536
}

/// The nearest hit over a prefix-closed scan of the scene, keeping the
/// earlier primitive when two hits are equally near.
pub open spec fn scene_nearest(objs: Seq<Sphere>, r: RayV, tmin: int, tmax: int) -> Option<
    (int, HitData),
>
    decreases objs.len(),
{
    if objs.len() == 0 {
        None
    } else {
        let prev = scene_nearest(objs.drop_last(), r, tmin, tmax);
        match sphere_hit(objs.last(), r, tmin, tmax) {
            Some(h) => match prev {
                Some(p) => if h.distance < p.1.distance {
                    Some((objs.len() - 1, h))
                } else {
                    Some(p)
                },
                None => Some((objs.len() - 1, h)),
            },
            None => prev,
        }
    }
}

/// What the scan guarantees: a returned hit comes from a primitive of the
/// scene and no primitive is struck strictly nearer; a miss means no
/// primitive is struck at all.
pub proof fn lemma_scene_nearest_properties(objs: Seq<Sphere>, r: RayV, tmin: int, tmax: int)
    ensures
        match scene_nearest(objs, r, tmin, tmax) {
            Some(p) => 0 <= p.0 < objs.len() && sphere_hit(objs[p.0], r, tmin, tmax) == Some(p.1)
                && forall|j: int|
                0 <= j < objs.len() ==> match #[trigger] sphere_hit(objs[j], r, tmin, tmax) {
                    Some(h2) => p.1.distance <= h2.distance,
                    None => true,
                },
            None => forall|j: int|
                0 <= j < objs.len() ==> #[trigger] sphere_hit(objs[j], r, tmin, tmax) is None,
        },
    decreases objs.len(),
{
    if objs.len() > 0 {
        lemma_scene_nearest_properties(objs.drop_last(), r, tmin, tmax);
        assert(forall|j: int|
            0 <= j < objs.len() - 1 ==> objs.drop_last()[j] == #[trigger] objs[j]);
    }
}

/// An unordered collection of primitives, shared read-only while rendering.
pub struct Scene {
    objects: Vec<Sphere>,
}

impl View for Scene {
    type V = Seq<Sphere>;

    closed spec fn view(&self) -> Seq<Sphere> {
        self.objects@
    }
}

impl Scene {
    /// An empty scene.
    pub fn new() -> (r: Scene)
        ensures
            r@.len() == 0,
    {
        Scene { objects: Vec::new() }
    }

    /// Adds a primitive.
    pub fn add(&mut self, object: Sphere)
        ensures
            final(self)@ == old(self)@.push(object),
    {
        self.objects.push(object);
    }

    /// The nearest intersection among all primitives, by a linear scan.
    pub fn nearest_hit(&self, ray: Ray, min_distance: i64, max_distance: i64) -> (r: Option<Hit>)
        requires
            scene_wf(self@),
            ray_wf(ray@),
            scene_time_ok(self@, ray@.time),
            0 <= min_distance,
            min_distance <= max_distance,
            max_distance <= DIST_LIMIT,
        ensures
            match r {
                Some(h) => (exists|i: int|
                    scene_nearest(self@, ray@, min_distance as int, max_distance as int) == Some(
                        (i, h@),
                    ) && 0 <= i < self@.len() && h.material == #[trigger] self@[i].material)
                    && h.ray == ray && material_wf(h.material) && min_distance <= h.distance
                    < max_distance && in_range(h@.normal, 0x20000) && 32768 <= v3_dot(
                    h@.normal,
                    h@.normal,
                ) <= 131072 && in_range(h@.point, ORIGIN_LIMIT as int) && v3_dot(
                    ray@.direction,
                    h@.normal,
                ) <= 0,
                None => scene_nearest(self@, ray@, min_distance as int, max_distance as int)
                    is None,
            },
    {
        let mut best: Option<Hit> = None;
        let ghost mut best_idx: int = 0;
        let mut i: usize = 0;
        while i < self.objects.len()
            invariant
                0 <= i <= self.objects.len(),
                scene_wf(self@),
                ray_wf(ray@),
                scene_time_ok(self@, ray@.time),
                0 <= min_distance,
                min_distance <= max_distance,
                max_distance <= DIST_LIMIT,
                match best {
                    Some(h) => scene_nearest(
                        self@.take(i as int),
                        ray@,
                        min_distance as int,
                        max_distance as int,
                    ) == Some((best_idx, h@)) && 0 <= best_idx < i as int && h.material
                        == self@[best_idx].material && h.ray == ray && material_wf(h.material)
                        && min_distance <= h.distance < max_distance && in_range(h@.normal, 0x20000)
                        && 32768 <= v3_dot(h@.normal, h@.normal) <= 131072 && in_range(
                        h@.point,
                        ORIGIN_LIMIT as int,
                    ) && v3_dot(ray@.direction, h@.normal) <= 0,
                    None => scene_nearest(
                        self@.take(i as int),
                        ray@,
                        min_distance as int,
                        max_distance as int,
                    ) is None,
                },
            decreases self.objects.len() - i,
        {
            let obj = self.objects[i];
            proof {
                assert(sphere_wf(self@[i as int]) && material_wf(self@[i as int].material));
                assert(curve_time_ok(self@[i as int].center, ray@.time));
            }
            match obj.hit(ray, min_distance, max_distance) {
                Some(h) => {
                    let replace = match best {
                        Some(b) => h.distance < b.distance,
                        None => true,
                    };
                    if replace {
                        best = Some(h);
                        proof {
                            best_idx = i as int;
                        }
                    }
                },
                None => {},
            }
            proof {
                assert(self@.take(i as int + 1).drop_last() =~= self@.take(i as int));
                assert(self@.take(i as int + 1).last() == self@[i as int]);
            }
            i = i + 1;
        }
        proof {
            assert(self@.take(self.objects.len() as int) =~= self@);
        }
        best
    }

    /// One path: bounce the ray up to `max_depth` times, attenuating by each
    /// struck material's albedo; a miss ends on the sky gradient, absorption
    /// and depth exhaustion end black.  Every returned channel is in
    /// `[0, 1]`; for an empty scene the result is exactly the sky color of
    /// the ray's direction.
    pub fn color(
        &self,
        ray: Ray,
        min_distance: i64,
        max_distance: i64,
        max_depth: u32,
        source: &mut RandomSource,
    ) -> (c: Vec3)
        requires
            scene_wf(self@),
            ray_wf(ray@),
            scene_time_ok(self@, ray@.time),
            0 <= min_distance,
            min_distance <= max_distance,
            max_distance <= DIST_LIMIT,
        ensures
            albedo_wf(c@),
            scene_nearest(self@, ray@, min_distance as int, max_distance as int) is None
                && max_depth > 0 ==> c@ == sky_v(ray@.direction),
            self@.len() == 0 && max_depth > 0 ==> c@ == sky_v(ray@.direction),
            max_depth == 0 ==> c@ == (V3 { x: 0, y: 0, z: 0 }),
    {
        let mut color = Vec3(65536, 65536, 65536);
        let mut current = ray;
        let mut depth: u32 = 0;
        while depth < max_depth
            invariant
                scene_wf(self@),
                ray_wf(current@),
                scene_time_ok(self@, current@.time),
                0 <= min_distance,
                min_distance <= max_distance,
                max_distance <= DIST_LIMIT,
                albedo_wf(color@),
                scene_nearest(self@, ray@, min_distance as int, max_distance as int) is None
                    ==> color == (Vec3(65536, 65536, 65536)) && current == ray && depth == 0,
                self@.len() == 0 ==> color == (Vec3(65536, 65536, 65536)) && current == ray
                    && depth == 0,
            decreases max_depth - depth,
        {
            match self.nearest_hit(current, min_distance, max_distance) {
                Some(hit) => {
                    match hit.material.redirect(&hit, source) {
                        Some(redirection) => {
                            proof {
                                lemma_color_attenuate(color@, redirection.albedo@);
                            }
                            color = color.hadamard(redirection.albedo);
                            current = Ray {
                                origin: hit.point,
                                direction: redirection.direction,
                                time: current.time,
                            };
                        },
                        None => {
                            return Vec3(0, 0, 0);
                        },
                    }
                },
                None => {
                    let shade = sky(current.direction);
                    proof {
                        lemma_color_attenuate(color@, shade@);
                        if color == (Vec3(65536, 65536, 65536)) {
                            lemma_fmul_scale(shade@.x);
                            lemma_fmul_scale(shade@.y);
                            lemma_fmul_scale(shade@.z);
                        }
                    }
                    return color.hadamard(shade);
                },
            }
            depth = depth + 1;
        }
        Vec3(0, 0, 0)
    }

    /// One pixel: the truncated average of `samples_per_pixel` jittered
    /// integrator samples.  For an empty scene with positive depth every
    /// sample is the sky of its ray, whose blue channel is exactly one, so
    /// the averaged blue channel is exactly one.
    pub fn render_pixel(
        &self,
        x: u32,
        y: u32,
        width: u32,
        height: u32,
        camera: Camera,
        min_distance: i64,
        max_distance: i64,
        samples_per_pixel: u32,
        max_depth: u32,
        source: &mut RandomSource,
    ) -> (c: Vec3)
        requires
            scene_wf(self@),
            camera_wf(camera@),
            forall|t: int| camera@.time0 <= t <= camera@.time1 ==> scene_time_ok(self@, t),
            0 <= min_distance,
            min_distance <= max_distance,
            max_distance <= DIST_LIMIT,
            x < width,
            y < height,
            width <= 0x10000,
            height <= 0x10000,
            1 <= samples_per_pixel <= 0x100000,
        ensures
            albedo_wf(c@),
            averaged_color(c@, samples_per_pixel as int),
            self@.len() == 0 && max_depth > 0 ==> c@.z == SCALE as int,
    {
        let mut sum = Vec3(0, 0, 0);
        let mut s: u32 = 0;
        while s < samples_per_pixel
            invariant
                scene_wf(self@),
                camera_wf(camera@),
                forall|t: int| camera@.time0 <= t <= camera@.time1 ==> scene_time_ok(self@, t),
                0 <= min_distance,
                min_distance <= max_distance,
                max_distance <= DIST_LIMIT,
                x < width,
                y < height,
                width <= 0x10000,
                height <= 0x10000,
                1 <= samples_per_pixel <= 0x100000,
                0 <= s <= samples_per_pixel,
                0 <= sum@.x <= s * 65536,
                0 <= sum@.y <= s * 65536,
                0 <= sum@.z <= s * 65536,
                self@.len() == 0 && max_depth > 0 ==> sum@.z == s * 65536,
            decreases samples_per_pixel - s,
        {
            let u = jitter_coordinate(x, width, source);
            let v = jitter_coordinate(y, height, source);
            let ray = camera.ray(u, v, source);
            proof {
                assert(scene_time_ok(self@, ray@.time));
            }
            let sample = self.color(ray, min_distance, max_distance, max_depth, source);
            proof {
                if self@.len() == 0 && max_depth > 0 {
                    lemma_sky_blue(ray@.direction);
                }
                assert(s * 65536 + 65536 == (s + 1) * 65536) by (nonlinear_arith);
                assert(samples_per_pixel * 65536 <= 0x100000 * 65536) by (nonlinear_arith)
                    requires
                        samples_per_pixel <= 0x100000,
                ;
                assert(s * 65536 <= samples_per_pixel * 65536) by (nonlinear_arith)
                    requires
                        0 <= s < samples_per_pixel,
                ;
            }
            sum = sum.plus(sample);
            s = s + 1;
        }
        proof {
            lemma_average_in_unit(sum@.x, samples_per_pixel as int);
            lemma_average_in_unit(sum@.y, samples_per_pixel as int);
            lemma_average_in_unit(sum@.z, samples_per_pixel as int);
            assert(samples_per_pixel * 65536 <= 0x100000 * 65536) by (nonlinear_arith)
                requires
                    samples_per_pixel <= 0x100000,
            ;
            assert(samples_per_pixel * 65536 >= 65536) by (nonlinear_arith)
                requires
                    samples_per_pixel >= 1,
            ;
        }
        let c = sum.div_s((samples_per_pixel as i64) * 65536);
        proof {
            assert(avg_of(sum@, samples_per_pixel as int) == c@);
            if self@.len() == 0 && max_depth > 0 {
                lemma_average_of_equal(65536, samples_per_pixel as int);
            }
        }
        c
    }

    /// The full image: `width * height` pixels in row-major order, each
    /// the truncated average of `samples_per_pixel` integrator samples with
    /// channels in `[0, 1]`; for an empty scene with positive depth every
    /// pixel's blue channel is exactly one.  Each pixel draws from its own
    /// stream, seeded from the global seed and the pixel index, so a render
    /// is reproducible and pixels are independent.
    pub fn render(
        &self,
        width: u32,
        height: u32,
        camera: Camera,
        min_distance: i64,
        max_distance: i64,
        samples_per_pixel: u32,
        max_depth: u32,
        seed: u64,
    ) -> (img: Vec<Vec3>)
        requires
            scene_wf(self@),
            camera_wf(camera@),
            forall|t: int| camera@.time0 <= t <= camera@.time1 ==> scene_time_ok(self@, t),
            0 <= min_distance,
            min_distance <= max_distance,
            max_distance <= DIST_LIMIT,
            1 <= width <= 0x10000,
            1 <= height <= 0x10000,
            1 <= samples_per_pixel <= 0x100000,
        ensures
            img@.len() == width * height,
            forall|i: int| 0 <= i < img@.len() ==> albedo_wf((#[trigger] img@[i])@),
            forall|i: int|
                0 <= i < img@.len() ==> averaged_color(
                    (#[trigger] img@[i])@,
                    samples_per_pixel as int,
                ),
            forall|i: int|
                0 <= i < img@.len() && self@.len() == 0 && max_depth > 0 ==> (
                #[trigger] img@[i])@.z == SCALE as int,
    {
        let mut img: Vec<Vec3> = Vec::new();
        let mut y: u32 = 0;
        proof {
            assert(width * height <= 0x10000 * 0x10000) by (nonlinear_arith)
                requires
                    width <= 0x10000,
                    height <= 0x10000,
            ;
        }
        while y < height
            invariant
                scene_wf(self@),
                camera_wf(camera@),
                forall|t: int| camera@.time0 <= t <= camera@.time1 ==> scene_time_ok(self@, t),
                0 <= min_distance,
                min_distance <= max_distance,
                max_distance <= DIST_LIMIT,
                1 <= width <= 0x10000,
                1 <= height <= 0x10000,
                1 <= samples_per_pixel <= 0x100000,
                0 <= y <= height,
                img@.len() == y * width,
                forall|i: int| 0 <= i < img@.len() ==> albedo_wf((#[trigger] img@[i])@),
                forall|i: int|
                    0 <= i < img@.len() ==> averaged_color(
                        (#[trigger] img@[i])@,
                        samples_per_pixel as int,
                    ),
                forall|i: int|
                    0 <= i < img@.len() && self@.len() == 0 && max_depth > 0 ==> (
                    #[trigger] img@[i])@.z == SCALE as int,
            decreases height - y,
        {
            let mut x: u32 = 0;
            while x < width
                invariant
                    scene_wf(self@),
                    camera_wf(camera@),
                    forall|t: int| camera@.time0 <= t <= camera@.time1 ==> scene_time_ok(self@, t),
                    0 <= min_distance,
                    min_distance <= max_distance,
                    max_distance <= DIST_LIMIT,
                    1 <= width <= 0x10000,
                    1 <= height <= 0x10000,
                    1 <= samples_per_pixel <= 0x100000,
                    0 <= y < height,
                    0 <= x <= width,
                    img@.len() == y * width + x,
                    forall|i: int| 0 <= i < img@.len() ==> albedo_wf((#[trigger] img@[i])@),
                    forall|i: int|
                        0 <= i < img@.len() ==> averaged_color(
                            (#[trigger] img@[i])@,
                            samples_per_pixel as int,
                        ),
                    forall|i: int|
                        0 <= i < img@.len() && self@.len() == 0 && max_depth > 0 ==> (
                        #[trigger] img@[i])@.z == SCALE as int,
                decreases width - x,
            {
                proof {
                    assert(y * width + x < 0x10000 * 0x10000) by (nonlinear_arith)
                        requires
                            0 <= y < height <= 0x10000,
                            0 <= x < width <= 0x10000,
                    ;
                    assert((y * width + width) == (y + 1) * width) by (nonlinear_arith);
                }
                let index: u64 = (y as u64) * (width as u64) + (x as u64);
                let mut pixel_source = RandomSource::new(seed.wrapping_add(index));
                let pixel = self.render_pixel(
                    x,
                    y,
                    width,
                    height,
                    camera,
                    min_distance,
                    max_distance,
                    samples_per_pixel,
                    max_depth,
                    &mut pixel_source,
                );
                img.push(pixel);
                x = x + 1;
            }
            proof {
                assert(y * width + width == (y + 1) * width) by (nonlinear_arith);
            }
            y = y + 1;
        }
        proof {
            assert(height * width == width * height) by (nonlinear_arith);
        }
        img
    }
}

/// A jittered normalized image coordinate: `(p + jitter) / extent`, always
/// in `[0, 1)`.
fn jitter_coordinate(p: u32, extent: u32, source: &mut RandomSource) -> (r: i64)
    requires
        p < extent,
        extent <= 0x10000,
    ensures
        0 <= r < SCALE,
{
    let jitter = source.next_unit();
    let num: i64 = (p as i64) * 65536 + jitter;
    let den: i64 = (extent as i64) * 65536;
    proof {
        assert((p as int) * 65536 + jitter < (extent as int) * 65536) by (nonlinear_arith)
            requires
                p < extent,
                0 <= jitter < 65536,
        ;
        lemma_frac_unit(num as int, den as int);
    }
    fx_div(num, den)
}

/// A proper fraction scaled to fixed point stays inside the unit interval.
proof fn lemma_frac_unit(num: int, den: int)
    requires
        0 <= num < den,
    ensures
        0 <= fdiv(num, den) < SCALE as int,
        fits_i64(fdiv(num, den)),
{
    lemma_div_pos_is_pos(num * SCALE, den);
    assert(num * SCALE < den * (SCALE as int)) by (nonlinear_arith)
        requires
            0 <= num < den,
    ;
    lemma_multiply_divide_lt(num * SCALE, den, SCALE as int);
}

/// Attenuating a unit-interval color by a unit-interval albedo keeps every
/// channel in the unit interval.
proof fn lemma_color_attenuate(c: V3, a: V3)
    requires
        albedo_wf(c),
        albedo_wf(a),
    ensures
        albedo_wf(v3_hadamard(c, a)),
        fits_i64(v3_hadamard(c, a).x),
        fits_i64(v3_hadamard(c, a).y),
        fits_i64(v3_hadamard(c, a).z),
{
    lemma_fmul_unit_interval(c.x, a.x);
    lemma_fmul_unit_interval(c.y, a.y);
    lemma_fmul_unit_interval(c.z, a.z);
}

/// The average of a sum of `n` unit-interval samples is in the unit
/// interval.
pub proof fn lemma_average_in_unit(total: int, n: int)
    requires
        1 <= n,
        0 <= total <= n * 65536,
    ensures
        0 <= fdiv(total, n * 65536) <= SCALE as int,
        fits_i64(fdiv(total, n * 65536)),
{
    let den = n * 65536;
    assert(n * 65536 >= 65536) by (nonlinear_arith)
        requires
            n >= 1,
    ;
    assert(total * SCALE == total * 65536);
    lemma_div_pos_is_pos(total * 65536, den);
    assert(total <= den ==> total * 65536 <= den * 65536) by (nonlinear_arith);
    lemma_multiply_divide_le(total * 65536, den, 65536);
}

/// Averaging `n` copies of one sample gives that sample back exactly: the
/// sum is `n * c` and the fixed-point division by `n` is exact.
pub proof fn lemma_average_of_equal(c: int, n: int)
    requires
        1 <= n,
        0 <= c <= SCALE as int,
    ensures
        fdiv(n * c, n * 65536) == c,
{
    let den = n * 65536;
    assert((n * c) * 65536 == (n * 65536) * c) by (nonlinear_arith);
    assert((n * c) * SCALE == (n * c) * 65536);
    assert(n * 65536 >= 1) by (nonlinear_arith)
        requires
            n >= 1,
    ;
    vstd::arithmetic::div_mod::lemma_div_multiples_vanish(c, den);
    assert((n * 65536) * c == c * (n * 65536)) by (nonlinear_arith);
    assert(s_abs((n * c) * 65536) == (n * c) * 65536) by {
        assert(n * c >= 0) by (nonlinear_arith)
            requires
                n >= 1,
                c >= 0,
        ;
        assert((n * c) * 65536 >= 0) by (nonlinear_arith)
            requires
                n * c >= 0,
        ;
    }
}

/// The sky gradient of a direction.
pub fn sky(dir: Vec3) -> (c: Vec3)
    requires
        in_range(dir@, 0x200000),
    ensures
        c@ == sky_v(dir@),
        albedo_wf(c@),
{
    let num = dir.1 + 65536;
    let h = half_toward_zero(num);
    let t = clamp_i64(h, 0, 65536);
    proof {
        lemma_fmul_unit_interval(32768, t as int);
        lemma_fmul_unit_interval(45875, t as int);
        lemma_fmul_unit_interval(65536, t as int);
        lemma_fmul_unit_interval(65536, 65536 - t as int);
    }
    let zenith = Vec3(32768, 45875, 65536);
    let horizon = Vec3(65536, 65536, 65536);
    zenith.scale(t).plus(horizon.scale(65536 - t))
}

/// Halving toward zero, matching `tdiv(x, 2)`.
fn half_toward_zero(x: i64) -> (r: i64)
    requires
        x > i64::MIN,
    ensures
        r == tdiv(x as int, 2),
{
    if x >= 0 {
        ((x as u64) / 2) as i64
    } else {
        -((((-x) as u64) / 2) as i64)
    }
}

} // verus!
