//! The material scattering model.
//!
//! A material maps a surface hit to either a redirected ray direction with
//! an attenuation color, or to absorption.  The random draws a policy
//! consumes are existentially quantified in its contract: for every value
//! the generator can hand back, the returned direction is the stated exact
//! function of it.

use vstd::prelude::*;
use vstd::arithmetic::div_mod::lemma_div_multiples_vanish;
use crate::fixed::{
    SCALE, fmul, fdiv, fsqrt, fits_i64, s_abs, lemma_fmul_abs, lemma_fdiv_abs, lemma_fmul_neg,
    lemma_fmul_scale, lemma_fmul_unit_interval, lemma_fmul_zero, lemma_isqrt_unique, fx_mul,
    fx_div, fx_sqrt,
};
use crate::math::{
    Vec3, V3, in_range, in_range_check, in_ball, on_sphere, v3_add, v3_sub, v3_neg, v3_scale,
    v3_dot, v3_unit, lemma_dot_fits, lemma_scale_fits, lemma_fmul_self_nonneg, lemma_len_lower,
    lemma_v3_dot_neg, lemma_v3_dot_neg_neg, lemma_unit_of_unit, lemma_v3_scale_identity, DIR_LIMIT,
};
use crate::object::{Hit, Face};
use crate::rng::RandomSource;

verus! {

/// An albedo is a color with every channel in `[0, 1]`.
pub open spec fn albedo_wf(a: V3) -> bool {
    0 <= a.x <= SCALE as int && 0 <= a.y <= SCALE as int && 0 <= a.z <= SCALE as int
}

/// The hit fields a scattering policy reads, within the renderer's bounds.
pub open spec fn hit_wf(h: Hit) -> bool {
    in_range(h.ray.direction@, 0x200000) && in_range(h.normal@, 0x20000)
}

/// A scatter vector long enough to normalize.
pub open spec fn scatter_ok(w: V3) -> bool {
    v3_dot(w, w) >= 256
}

/// A redirection record: the outgoing direction and the attenuation the
/// integrator multiplies into the path color.
#[derive(Clone, Copy)]
pub struct Redirection {
    pub direction: Vec3,
    pub albedo: Vec3,
}

/// Ideal diffuse reflection: the normal plus a unit-sphere sample,
/// normalized.
#[derive(Clone, Copy, PartialEq, Eq, Structural, Debug)]
pub struct Lambertian {
    pub albedo: Vec3,
}

/// The alternate diffuse model: the normal plus a unit-ball sample, left
/// unnormalized on purpose.
#[derive(Clone, Copy, PartialEq, Eq, Structural, Debug)]
pub struct Spherical {
    pub albedo: Vec3,
}

/// Diffuse reflection by a ball sample flipped into the normal's
/// hemisphere, normalized.
#[derive(Clone, Copy, PartialEq, Eq, Structural, Debug)]
pub struct Hemispherical {
    pub albedo: Vec3,
}

/// Mirror reflection, fuzzed by a scaled ball sample; rays perturbed below
/// the surface are absorbed.
#[derive(Clone, Copy, PartialEq, Eq, Structural, Debug)]
pub struct Specular {
    pub albedo: Vec3,
    pub fuzziness: i64,
}

/// Snell refraction with Schlick-approximated probabilistic reflection, and
/// mirror reflection on total internal reflection.
#[derive(Clone, Copy, PartialEq, Eq, Structural, Debug)]
pub struct Refractive {
    pub albedo: Vec3,
    pub index: i64,
}

/// The closed set of scattering policies.
#[derive(Clone, Copy, PartialEq, Eq, Structural, Debug)]
pub enum Material {
    Lambertian(Lambertian),
    Spherical(Spherical),
    Hemispherical(Hemispherical),
    Specular(Specular),
    Refractive(Refractive),
}

/// The mirror reflection of `d` about the normal `n`.
pub open spec fn reflect_v(d: V3, n: V3) -> V3 {
    v3_sub(d, v3_scale(v3_scale(n, v3_dot(d, n)), 2 * SCALE))
}

/// The fifth power, as the executable code computes it.
pub open spec fn pow5_fx(x: int) -> int {
    fmul(fmul(fmul(x, x), fmul(x, x)), x)
}

/// Schlick's reflectance approximation:
/// `r0 + (1 - r0) * (1 - cos)^5` with `r0 = ((1 - n) / (1 + n))^2`.
pub open spec fn schlick_fx(index: int, cos: int) -> int {
    let r0 = fdiv(SCALE - index, SCALE + index);
    let r0sq = fmul(r0, r0);
    r0sq + fmul(SCALE as int - r0sq, pow5_fx(SCALE as int - cos))
}

/// The refraction outcome for a given unit draw: mirror reflection on total
/// internal reflection or when the draw falls below the Schlick
/// reflectance, otherwise the Snell-refracted direction.
pub open spec fn refract_spec(index: int, d: V3, n: V3, face: Face, draw: int) -> V3 {
    let cos = -v3_dot(d, n);
    let sin_ratio = if face == Face::Front {
        fdiv(SCALE as int, index)
    } else {
        index
    };
    let radicand = SCALE as int - fmul(fmul(sin_ratio, sin_ratio), SCALE as int - fmul(cos, cos));
    if radicand < 0 || draw < schlick_fx(index, cos) {
        reflect_v(d, n)
    } else {
        v3_sub(v3_scale(v3_add(d, v3_scale(n, cos)), sin_ratio), v3_scale(n, fsqrt(radicand)))
    }
}

/// An index of refraction the renderer accepts: between 1/16 and 16.
pub open spec fn index_wf(index: int) -> bool {
    4096 <= index <= 0x100000
}

pub open spec fn material_wf(m: Material) -> bool {
    match m {
        Material::Lambertian(l) => albedo_wf(l.albedo@),
        Material::Spherical(s) => albedo_wf(s.albedo@),
        Material::Hemispherical(h) => albedo_wf(h.albedo@),
        Material::Specular(s) => albedo_wf(s.albedo@) && 0 <= s.fuzziness <= SCALE,
        Material::Refractive(r) => albedo_wf(r.albedo@) && index_wf(r.index as int),
    }
}

/// The attenuation a material applies.
pub open spec fn albedo_of(m: Material) -> V3 {
    match m {
        Material::Lambertian(l) => l.albedo@,
        Material::Spherical(s) => s.albedo@,
        Material::Hemispherical(h) => h.albedo@,
        Material::Specular(s) => s.albedo@,
        Material::Refractive(r) => r.albedo@,
    }
}

/// What a Lambertian bounce guarantees, for every draw: the direction is
/// the normalized sum of the normal and a unit-sphere sample, and only a
/// sum too short to normalize is absorbed.
pub open spec fn lambertian_scatter(albedo: Vec3, h: Hit, r: Option<Redirection>) -> bool {
    match r {
        Some(red) => red.albedo == albedo && (exists|s: V3|
            #[trigger] on_sphere(s) && in_range(s, DIR_LIMIT as int) && scatter_ok(
                v3_add(h.normal@, s),
            ) && red.direction@ == v3_unit(v3_add(h.normal@, s))) && in_range(
            red.direction@,
            DIR_LIMIT as int,
        ),
        None => exists|s: V3| #[trigger] on_sphere(s) && !scatter_ok(v3_add(h.normal@, s)),
    }
}

/// What a Spherical bounce guarantees: always a redirection, the normal
/// plus a unit-ball sample, unnormalized.
pub open spec fn spherical_scatter(albedo: Vec3, h: Hit, r: Option<Redirection>) -> bool {
    match r {
        Some(red) => red.albedo == albedo && (exists|s: V3|
            #[trigger] in_ball(s) && red.direction@ == v3_add(h.normal@, s)) && in_range(
            red.direction@,
            0x30000,
        ),
        None => false,
    }
}

/// What a Hemispherical bounce guarantees: the normalized sum of the normal
/// and a ball sample flipped into its hemisphere; only a degenerate sum is
/// absorbed.
pub open spec fn hemispherical_scatter(albedo: Vec3, h: Hit, r: Option<Redirection>) -> bool {
    match r {
        Some(red) => red.albedo == albedo && (exists|s: V3|
            #[trigger] in_ball(s) && scatter_ok(v3_add(h.normal@, hemi_flip(s, h.normal@)))
            && red.direction@ == v3_unit(v3_add(h.normal@, hemi_flip(s, h.normal@)))) && in_range(
            red.direction@,
            DIR_LIMIT as int,
        ),
        None => exists|s: V3|
            #[trigger] in_ball(s) && !scatter_ok(v3_add(h.normal@, hemi_flip(s, h.normal@))),
    }
}

/// What a Specular bounce guarantees: the normalized fuzzed reflection,
/// kept only above the surface; with zero fuzziness, exactly the
/// normalized mirror reflection.
pub open spec fn specular_scatter(albedo: Vec3, fuzziness: i64, h: Hit, r: Option<
    Redirection,
>) -> bool {
    match r {
        Some(red) => red.albedo == albedo && (exists|s: V3|
            #[trigger] in_ball(s) && scatter_ok(fuzzed_reflection(h, s, fuzziness as int))
            && red.direction@ == v3_unit(fuzzed_reflection(h, s, fuzziness as int)) && v3_dot(
            red.direction@,
            h.normal@,
        ) > 0) && (fuzziness == 0 ==> red.direction@ == v3_unit(
            reflect_v(h.ray.direction@, h.normal@),
        )) && in_range(red.direction@, DIR_LIMIT as int),
        None => exists|s: V3|
            #[trigger] in_ball(s) && (!scatter_ok(fuzzed_reflection(h, s, fuzziness as int))
                || v3_dot(v3_unit(fuzzed_reflection(h, s, fuzziness as int)), h.normal@) <= 0),
    }
}

/// What a dispatched Refractive bounce guarantees: for some unit draw the
/// direction is exactly the Snell/Schlick outcome and lies within the
/// renderer's direction bounds; a draw whose outcome leaves those bounds is
/// absorbed (the numeric guard of the dispatcher, the one way a refractive
/// bounce can absorb).
pub open spec fn refractive_scatter(albedo: Vec3, index: i64, h: Hit, r: Option<
    Redirection,
>) -> bool {
    match r {
        Some(red) => red.albedo == albedo && in_range(red.direction@, 0x200000) && (exists|
            draw: int,
        |
            0 <= draw < SCALE as int && red.direction@ == #[trigger] refract_spec(
                index as int,
                h.ray.direction@,
                h.normal@,
                h.face,
                draw,
            )),
        None => exists|draw: int|
            0 <= draw < SCALE as int && !in_range(
                #[trigger] refract_spec(index as int, h.ray.direction@, h.normal@, h.face, draw),
                0x200000,
            ),
    }
}

impl Lambertian {
    /// Scatters into `unit(normal + s)` for a unit-sphere sample `s`;
    /// absorbs only a degenerate sum too short to normalize.
    pub fn redirect(&self, hit: &Hit, source: &mut RandomSource) -> (r: Option<Redirection>)
        requires
            hit_wf(*hit),
        ensures
            lambertian_scatter(self.albedo, *hit, r),
    {
        let s = Vec3::random_on_unit_sphere(source);
        let w = hit.normal.plus(s);
        proof {
            lemma_dot_fits(w@, w@, 0x130000, 0x130000);
            lemma_fmul_self_nonneg(w@.x);
            lemma_fmul_self_nonneg(w@.y);
            lemma_fmul_self_nonneg(w@.z);
        }
        let d = w.dot(w);
        if d >= 256 {
            proof {
                lemma_len_lower(w@);
            }
            Some(Redirection { direction: w.unit(), albedo: self.albedo })
        } else {
            None
        }
    }
}

impl Spherical {
    /// Scatters into `normal + s` for a unit-ball sample `s`, without
    /// normalizing; never absorbs.
    pub fn redirect(&self, hit: &Hit, source: &mut RandomSource) -> (r: Option<Redirection>)
        requires
            hit_wf(*hit),
        ensures
            r is Some,
            spherical_scatter(self.albedo, *hit, r),
    {
        let s = Vec3::random_in_unit_sphere(source);
        let w = hit.normal.plus(s);
        Some(Redirection { direction: w, albedo: self.albedo })
    }
}

/// A ball sample flipped into the hemisphere of the normal.
pub open spec fn hemi_flip(s: V3, n: V3) -> V3 {
    if v3_dot(s, n) >= 0 {
        s
    } else {
        v3_neg(s)
    }
}

impl Hemispherical {
    /// Scatters into `unit(normal + flip(s))` for a unit-ball sample `s`
    /// flipped into the normal's hemisphere; absorbs only a degenerate sum.
    pub fn redirect(&self, hit: &Hit, source: &mut RandomSource) -> (r: Option<Redirection>)
        requires
            hit_wf(*hit),
        ensures
            hemispherical_scatter(self.albedo, *hit, r),
    {
        let s = Vec3::random_in_unit_sphere(source);
        proof {
            lemma_dot_fits(s@, hit.normal@, 0x10000, 0x20000);
        }
        let flipped = if s.dot(hit.normal) >= 0 {
            s
        } else {
            s.neg()
        };
        let w = hit.normal.plus(flipped);
        proof {
            lemma_dot_fits(w@, w@, 0x30000, 0x30000);
            lemma_fmul_self_nonneg(w@.x);
            lemma_fmul_self_nonneg(w@.y);
            lemma_fmul_self_nonneg(w@.z);
        }
        let d = w.dot(w);
        if d >= 256 {
            proof {
                lemma_len_lower(w@);
            }
            Some(Redirection { direction: w.unit(), albedo: self.albedo })
        } else {
            None
        }
    }
}

impl Specular {
    /// The mirror reflection of the hit's incoming direction about its
    /// normal; shared with refraction's reflective branches.
    pub fn reflect(hit: &Hit) -> (r: Vec3)
        requires
            hit_wf(*hit),
        ensures
            r@ == reflect_v(hit.ray.direction@, hit.normal@),
            in_range(r@, 0x4000000),
    {
        proof {
            lemma_dot_fits(hit.ray.direction@, hit.normal@, 0x200000, 0x20000);
            lemma_scale_fits(hit.normal@, v3_dot(hit.ray.direction@, hit.normal@), 0x20000, 0xc00000);
            lemma_scale_fits(
                v3_scale(hit.normal@, v3_dot(hit.ray.direction@, hit.normal@)),
                2 * SCALE as int,
                0x1800000,
                2 * SCALE as int,
            );
        }
        let d = hit.ray.direction.dot(hit.normal);
        let scaled = hit.normal.scale(d).scale(131072);
        hit.ray.direction.minus(scaled)
    }

    /// Mirror reflection perturbed by `fuzziness` times a ball sample, then
    /// normalized; absorbed when the result leaves the surface's hemisphere
    /// or is too short to normalize.
    pub fn redirect(&self, hit: &Hit, source: &mut RandomSource) -> (r: Option<Redirection>)
        requires
            hit_wf(*hit),
            0 <= self.fuzziness <= SCALE,
        ensures
            specular_scatter(self.albedo, self.fuzziness, *hit, r),
    {
        let refl = Self::reflect(hit);
        let s = Vec3::random_in_unit_sphere(source);
        proof {
            lemma_scale_fits(s@, self.fuzziness as int, 0x10000, SCALE as int);
        }
        let fuzz = s.scale(self.fuzziness);
        let w = refl.plus(fuzz);
        proof {
            lemma_dot_fits(w@, w@, 0x4010000, 0x4010000);
            lemma_fmul_self_nonneg(w@.x);
            lemma_fmul_self_nonneg(w@.y);
            lemma_fmul_self_nonneg(w@.z);
            if self.fuzziness == 0 {
                lemma_zero_scale_vanishes(s@);
            }
        }
        let d = w.dot(w);
        if d < 256 {
            return None;
        }
        proof {
            lemma_len_lower(w@);
        }
        let direction = w.unit();
        proof {
            lemma_dot_fits(direction@, hit.normal@, DIR_LIMIT as int, 0x20000);
        }
        if direction.dot(hit.normal) > 0 {
            Some(Redirection { direction, albedo: self.albedo })
        } else {
            None
        }
    }
}

/// The perturbed mirror reflection a fuzzy specular bounce normalizes.
pub open spec fn fuzzed_reflection(h: Hit, s: V3, fuzziness: int) -> V3 {
    v3_add(reflect_v(h.ray.direction@, h.normal@), v3_scale(s, fuzziness))
}

/// Scaling a vector by a zero factor gives the zero vector.
proof fn lemma_zero_scale_vanishes(s: V3)
    ensures
        v3_scale(s, 0) == (V3 { x: 0, y: 0, z: 0 }),
{
    assert(s.x * 0 == 0) by (nonlinear_arith);
    assert(s.y * 0 == 0) by (nonlinear_arith);
    assert(s.z * 0 == 0) by (nonlinear_arith);
}

impl Refractive {
    /// Schlick's polynomial reflectance approximation.
    pub fn schlick(&self, cos: i64) -> (r: i64)
        requires
            index_wf(self.index as int),
            s_abs(cos as int) <= 0x1000000,
        ensures
            r == schlick_fx(self.index as int, cos as int),
    {
        proof {
            lemma_schlick_fits(self.index as int, cos as int);
        }
        let r0 = fx_div(65536 - self.index, 65536 + self.index);
        let r0sq = fx_mul(r0, r0);
        r0sq + fx_mul(65536 - r0sq, pow5(65536 - cos))
    }

    /// Refracts the hit's ray by Snell's law, falling back to mirror
    /// reflection on total internal reflection or when a random draw falls
    /// below the Schlick reflectance; never absorbs.
    pub fn redirect(&self, hit: &Hit, source: &mut RandomSource) -> (r: Option<Redirection>)
        requires
            hit_wf(*hit),
            index_wf(self.index as int),
        ensures
            match r {
                Some(red) => red.albedo == self.albedo && (exists|draw: int|
                    0 <= draw < SCALE as int && red.direction@ == #[trigger] refract_spec(
                        self.index as int,
                        hit.ray.direction@,
                        hit.normal@,
                        hit.face,
                        draw,
                    )),
                None => false,
            },
    {
        proof {
            lemma_dot_fits(hit.ray.direction@, hit.normal@, 0x200000, 0x20000);
        }
        let cos = -(hit.ray.direction.dot(hit.normal));
        let sin_ratio = match hit.face {
            Face::Front => {
                proof {
                    lemma_fdiv_abs(SCALE as int, self.index as int, SCALE as int, 4096);
                }
                fx_div(65536, self.index)
            },
            Face::Back => self.index,
        };
        proof {
            lemma_fmul_abs(sin_ratio as int, sin_ratio as int, 0x100000, 0x100000);
            lemma_fmul_abs(cos as int, cos as int, 0xc00000, 0xc00000);
            lemma_fmul_abs(
                fmul(sin_ratio as int, sin_ratio as int),
                SCALE as int - fmul(cos as int, cos as int),
                0x10000000,
                0x100000000,
            );
        }
        let radicand = 65536 - fx_mul(fx_mul(sin_ratio, sin_ratio), 65536 - fx_mul(cos, cos));
        let schlick_value = self.schlick(cos);
        let draw = source.next_unit();
        let direction = if radicand < 0 || draw < schlick_value {
            Specular::reflect(hit)
        } else {
            let cos_ratio = fx_sqrt(radicand);
            proof {
                lemma_refract_fits(
                    hit.ray.direction@,
                    hit.normal@,
                    cos as int,
                    sin_ratio as int,
                    radicand as int,
                    cos_ratio as int,
                );
            }
            let base = hit.ray.direction.plus(hit.normal.scale(cos));
            base.scale(sin_ratio).minus(hit.normal.scale(cos_ratio))
        };
        proof {
            assert(direction@ == refract_spec(
                self.index as int,
                hit.ray.direction@,
                hit.normal@,
                hit.face,
                draw as int,
            ));
        }
        Some(Redirection { direction, albedo: self.albedo })
    }
}

/// The fifth power of a fixed-point value of moderate magnitude.
fn pow5(x: i64) -> (r: i64)
    requires
        s_abs(x as int) <= 0x2000000,
    ensures
        r == pow5_fx(x as int),
{
    proof {
        lemma_fmul_abs(x as int, x as int, 0x2000000, 0x2000000);
        lemma_fmul_abs(fmul(x as int, x as int), fmul(x as int, x as int), 0x400000000, 0x400000000);
        lemma_fmul_abs(
            fmul(fmul(x as int, x as int), fmul(x as int, x as int)),
            x as int,
            0x10000000000000,
            0x2000000,
        );
    }
    let x2 = fx_mul(x, x);
    let x4 = fx_mul(x2, x2);
    fx_mul(x4, x)
}

/// Every intermediate of the Schlick formula fits in an `i64`.
proof fn lemma_schlick_fits(index: int, cos: int)
    requires
        index_wf(index),
        s_abs(cos) <= 0x1000000,
    ensures
        fits_i64(fdiv(SCALE as int - index, SCALE as int + index)),
        s_abs(fdiv(SCALE as int - index, SCALE as int + index)) <= SCALE as int,
        fits_i64(fmul(fdiv(SCALE as int - index, SCALE as int + index), fdiv(SCALE as int - index, SCALE as int + index))),
        s_abs(fmul(fdiv(SCALE as int - index, SCALE as int + index), fdiv(SCALE as int - index, SCALE as int + index))) <= SCALE as int,
        s_abs(pow5_fx(SCALE as int - cos)) <= 0x2000000000000000,
        fits_i64(schlick_fx(index, cos)),
        fits_i64(fmul(SCALE as int - fmul(fdiv(SCALE as int - index, SCALE as int + index), fdiv(SCALE as int - index, SCALE as int + index)), pow5_fx(SCALE as int - cos))),
{
    let num = SCALE as int - index;
    let den = SCALE as int + index;
    assert(s_abs(num) <= den);
    lemma_fdiv_abs(num, den, den, den);
    lemma_div_mul_cancel(den);
    let r0 = fdiv(num, den);
    lemma_fmul_abs(r0, r0, SCALE as int, SCALE as int);
    let x = SCALE as int - cos;
    lemma_fmul_abs(x, x, 0x2000000, 0x2000000);
    lemma_fmul_abs(fmul(x, x), fmul(x, x), 0x400000000, 0x400000000);
    lemma_fmul_abs(fmul(fmul(x, x), fmul(x, x)), x, 0x10000000000000, 0x2000000);
    let r0sq = fmul(r0, r0);
    lemma_fmul_abs(SCALE as int - r0sq, pow5_fx(x), 0x20000, 0x2000000000000000);
}

/// `(d * SCALE) / d == SCALE` for a positive `d`.
proof fn lemma_div_mul_cancel(d: int)
    requires
        d >= 1,
    ensures
        (d * SCALE) / d == SCALE as int,
{
    vstd::arithmetic::div_mod::lemma_div_multiples_vanish(SCALE as int, d);
    assert(d * SCALE == d * (SCALE as int)) by (nonlinear_arith);
}

/// Every intermediate of the Snell refraction formula fits in an `i64`.
proof fn lemma_refract_fits(d: V3, n: V3, cos: int, sin_ratio: int, radicand: int, cos_ratio: int)
    requires
        in_range(d, 0x200000),
        in_range(n, 0x20000),
        s_abs(cos) <= 0xc00000,
        s_abs(sin_ratio) <= 0x100000,
        0 <= radicand <= 0x200000000000,
        cos_ratio == fsqrt(radicand),
    ensures
        fits_i64(v3_scale(n, cos).x),
        fits_i64(v3_scale(n, cos).y),
        fits_i64(v3_scale(n, cos).z),
        in_range(v3_scale(n, cos), 0x1800000),
        fits_i64(v3_add(d, v3_scale(n, cos)).x),
        fits_i64(v3_add(d, v3_scale(n, cos)).y),
        fits_i64(v3_add(d, v3_scale(n, cos)).z),
        fits_i64(v3_scale(v3_add(d, v3_scale(n, cos)), sin_ratio).x),
        fits_i64(v3_scale(v3_add(d, v3_scale(n, cos)), sin_ratio).y),
        fits_i64(v3_scale(v3_add(d, v3_scale(n, cos)), sin_ratio).z),
        0 <= cos_ratio < 0x2000000000,
        fits_i64(v3_scale(n, cos_ratio).x),
        fits_i64(v3_scale(n, cos_ratio).y),
        fits_i64(v3_scale(n, cos_ratio).z),
        fits_i64(
            v3_sub(v3_scale(v3_add(d, v3_scale(n, cos)), sin_ratio), v3_scale(n, cos_ratio)).x,
        ),
        fits_i64(
            v3_sub(v3_scale(v3_add(d, v3_scale(n, cos)), sin_ratio), v3_scale(n, cos_ratio)).y,
        ),
        fits_i64(
            v3_sub(v3_scale(v3_add(d, v3_scale(n, cos)), sin_ratio), v3_scale(n, cos_ratio)).z,
        ),
{
    lemma_scale_fits(n, cos, 0x20000, 0xc00000);
    lemma_scale_fits(v3_add(d, v3_scale(n, cos)), sin_ratio, 0x1a00000, 0x100000);
    crate::fixed::lemma_isqrt_bracket(radicand * SCALE);
    assert(cos_ratio < 0x2000000000) by {
        if cos_ratio >= 0x2000000000 {
            assert(cos_ratio * cos_ratio >= 0x2000000000 * 0x2000000000) by (nonlinear_arith)
                requires
                    cos_ratio >= 0x2000000000,
            ;
        }
    }
    lemma_scale_fits(n, cos_ratio, 0x20000, 0x2000000000);
}

/// With an index of refraction of one, Snell's law collapses to the
/// identity: a head-on ray, one that exactly opposes a normal of unit
/// length, passes straight through, whatever the reflectance draw, since
/// the Schlick reflectance at grazing cosine one is zero.
pub proof fn lemma_refraction_identity(d: V3, draw: int)
    requires
        v3_dot(d, d) == SCALE as int,
        0 <= draw,
    ensures
        refract_spec(SCALE as int, d, v3_neg(d), Face::Front, draw) == d,
{
    let n = v3_neg(d);
    lemma_v3_dot_neg(d, d);
    assert(-v3_dot(d, n) == SCALE as int);
    // sin_ratio = (SCALE * SCALE) / SCALE = SCALE
    lemma_div_multiples_vanish(65536, 65536);
    assert(fdiv(SCALE as int, SCALE as int) == SCALE as int);
    // fmul by a whole SCALE is exact, so the radicand is exactly SCALE
    lemma_fmul_scale(SCALE as int);
    assert(SCALE as int - fmul(SCALE as int, SCALE as int) == 0);
    lemma_fmul_zero(SCALE as int);
    assert(SCALE as int - fmul(fmul(SCALE as int, SCALE as int), 0) == SCALE as int);
    // the Schlick reflectance at cosine one is zero
    assert(fdiv(0, 2 * SCALE as int) == 0) by {
        assert(0int * SCALE == 0);
    }
    lemma_fmul_zero(0);
    lemma_fmul_zero(fmul(0, 0));
    lemma_fmul_zero(fmul(fmul(0, 0), fmul(0, 0)));
    assert(pow5_fx(0) == 0);
    assert(schlick_fx(SCALE as int, SCALE as int) == fmul(SCALE as int - 0, 0));
    lemma_fmul_zero(SCALE as int);
    // the square root of one is one
    lemma_isqrt_unique(0x100000000, 65536);
    assert(fsqrt(SCALE as int) == SCALE as int);
    // the refracted direction collapses to d
    lemma_v3_scale_identity(n);
    assert(v3_add(d, n) == (V3 { x: 0, y: 0, z: 0 }));
    lemma_v3_scale_identity(V3 { x: 0, y: 0, z: 0 });
    assert(v3_sub(V3 { x: 0, y: 0, z: 0 }, n) == d);
}

/// A mirror reflection of a head-on unit ray reverses it exactly: against
/// the opposing unit normal, the reflected direction is the normal itself,
/// and renormalizing changes nothing.  Together with the zero-fuzziness
/// clause of `Specular::redirect`, the outgoing direction of a mirror
/// equals the geometric reflection exactly.
pub proof fn lemma_mirror_reversal(d: V3)
    requires
        v3_dot(d, d) == SCALE as int,
    ensures
        reflect_v(d, v3_neg(d)) == v3_neg(d),
        v3_unit(reflect_v(d, v3_neg(d))) == v3_neg(d),
{
    let n = v3_neg(d);
    lemma_v3_dot_neg(d, d);
    assert(v3_dot(d, n) == -(SCALE as int));
    // n scaled by the dot product -1 is exactly d
    lemma_fmul_neg(n.x, SCALE as int);
    lemma_fmul_neg(n.y, SCALE as int);
    lemma_fmul_neg(n.z, SCALE as int);
    lemma_fmul_scale(n.x);
    lemma_fmul_scale(n.y);
    lemma_fmul_scale(n.z);
    assert(v3_scale(n, v3_dot(d, n)) == d);
    // d scaled by two is two of d, exactly
    assert(d.x * (2 * SCALE) == (2 * d.x) * SCALE) by (nonlinear_arith);
    assert(d.y * (2 * SCALE) == (2 * d.y) * SCALE) by (nonlinear_arith);
    assert(d.z * (2 * SCALE) == (2 * d.z) * SCALE) by (nonlinear_arith);
    lemma_fmul_scale(2 * d.x);
    lemma_fmul_scale(2 * d.y);
    lemma_fmul_scale(2 * d.z);
    assert(v3_scale(d, 2 * SCALE) == (V3 { x: 2 * d.x, y: 2 * d.y, z: 2 * d.z }));
    assert(reflect_v(d, n) == n);
    lemma_v3_dot_neg_neg(d, d);
    lemma_unit_of_unit(n);
}

impl Material {
    /// Dispatches to the policy's scattering function and restates its
    /// guarantees variant by variant.  A scattered direction outside the
    /// renderer's bounds -- possible only for the unnormalized refractive
    /// output -- is absorbed; that numeric guard is stated in the
    /// refractive clause.  Whatever the draws, a returned ray keeps the
    /// material's own albedo and a bounded direction.
    pub fn redirect(&self, hit: &Hit, source: &mut RandomSource) -> (r: Option<Redirection>)
        requires
            material_wf(*self),
            hit_wf(*hit),
        ensures
            match *self {
                Material::Lambertian(l) => lambertian_scatter(l.albedo, *hit, r),
                Material::Spherical(s) => spherical_scatter(s.albedo, *hit, r),
                Material::Hemispherical(h) => hemispherical_scatter(h.albedo, *hit, r),
                Material::Specular(s) => specular_scatter(s.albedo, s.fuzziness, *hit, r),
                Material::Refractive(rf) => refractive_scatter(rf.albedo, rf.index, *hit, r),
            },
            (*self) matches Material::Spherical(_) ==> r is Some,
            match r {
                Some(red) => red.albedo@ == albedo_of(*self) && albedo_wf(red.albedo@)
                    && in_range(red.direction@, 0x200000),
                None => true,
            },
    {
        let scattered = match self {
            Material::Lambertian(l) => l.redirect(hit, source),
            Material::Spherical(s) => s.redirect(hit, source),
            Material::Hemispherical(h) => h.redirect(hit, source),
            Material::Specular(s) => s.redirect(hit, source),
            Material::Refractive(r) => r.redirect(hit, source),
        };
        match scattered {
            Some(red) => {
                if in_range_check(red.direction, 2097152) {
                    Some(red)
                } else {
                    proof {
                        if let Material::Refractive(rf) = *self {
                            let draw = choose|draw: int|
                                0 <= draw < SCALE as int && red.direction@ == refract_spec(
                                    rf.index as int,
                                    hit.ray.direction@,
                                    hit.normal@,
                                    hit.face,
                                    draw,
                                );
                            assert(!in_range(
                                refract_spec(
                                    rf.index as int,
                                    hit.ray.direction@,
                                    hit.normal@,
                                    hit.face,
                                    draw,
                                ),
                                0x200000,
                            ));
                        }
                    }
                    None
                }
            },
            None => None,
        }
    }
}

} // verus!
