//! The movable sphere primitive and its intersection routine.
//!
//! `Sphere::hit` solves the ray-sphere quadratic `a*t^2 + 2*b*t + c = 0`,
//! selects the nearer admissible root, and orients the surface normal
//! against the ray.  The whole routine is deterministic and its contract is
//! an exact mirror, `sphere_hit`, plus the derived guarantees: the returned
//! distance lies inside the queried window, and the normal faces the ray.

use vstd::prelude::*;
use vstd::arithmetic::div_mod::{lemma_div_multiples_vanish, lemma_div_of0, lemma_fundamental_div_mod};
use crate::fixed::{
    SCALE, s_abs, fmul, fdiv, fsqrt, fits_i64, lemma_fmul_abs, lemma_fdiv_abs, lemma_fmul_neg,
    lemma_fmul_scale, lemma_fmul_zero, lemma_isqrt_bracket, lemma_isqrt_unique, fx_mul, fx_div,
    fx_sqrt,
};
use crate::math::{
    Vec3, V3, Ray, RayV, Curve, Aabb, AabbV, in_range, in_range_check, v3_add, v3_sub, v3_neg,
    v3_dot, v3_div, ray_at, curve_at, curve_wf, curve_time_ok, aabb_merge, lemma_dot_fits,
    lemma_scale_fits, lemma_v3_dot_neg, lemma_v3_dot_neg_neg, POS_LIMIT, ORIGIN_LIMIT, DIST_LIMIT,
    TIME_LIMIT,
};
use crate::material::Material;

verus! {

/// Which side of the surface the ray struck.
#[derive(Clone, Copy, PartialEq, Eq, Structural, Debug)]
pub enum Face {
    Front,  // Outside
    Back,  // Inside
}

/// The mathematical model of a hit: distance along the ray, world point,
/// oriented unit-ish normal, and the struck side.
pub ghost struct HitData {
    pub distance: int,
    pub point: V3,
    pub normal: V3,
    pub face: Face,
}

/// A surface intersection, consumed immediately by the integrator.
#[derive(Clone, Copy)]
pub struct Hit {
    pub ray: Ray,
    pub distance: i64,
    pub point: Vec3,
    pub normal: Vec3,
    pub material: Material,
    pub face: Face,
}

impl View for Hit {
    type V = HitData;

    open spec fn view(&self) -> HitData {
        HitData {
            distance: self.distance as int,
            point: self.point@,
            normal: self.normal@,
            face: self.face,
        }
    }
}

/// The outward normal oriented against the ray: kept and tagged `Front`
/// when its dot product with the ray direction is negative; flipped and
/// tagged `Back` when that dot product is non-negative (the ray runs
/// inside, moving outward).
pub open spec fn oriented(dir: V3, outward: V3) -> (V3, Face) {
    if v3_dot(dir, outward) < 0 {
        (outward, Face::Front)
    } else {
        (v3_neg(outward), Face::Back)
    }
}

/// Bounds on a ray the renderer works with: an origin within the range hit
/// points can reach, a near-unit direction, a bounded time sample.
pub open spec fn ray_wf(r: RayV) -> bool {
    in_range(r.origin, ORIGIN_LIMIT as int) && in_range(r.direction, 0x200000) && s_abs(r.time)
        <= TIME_LIMIT as int
}

impl Hit {
    /// Builds a hit record, orienting the outward normal against the ray.
    pub fn new(ray: Ray, distance: i64, point: Vec3, normal: Vec3, material: Material) -> (r: Hit)
        requires
            in_range(ray.direction@, 0x200000),
            in_range(normal@, 0x20000),
        ensures
            (r@.normal, r.face) == oriented(ray.direction@, normal@),
            r.ray == ray,
            r@.distance == distance as int,
            r@.point == point@,
            r.material == material,
            v3_dot(ray.direction@, r@.normal) <= 0,
            r.face == Face::Front ==> r@.normal == normal@ && v3_dot(ray.direction@, normal@)
                < 0,
            r.face == Face::Back ==> r@.normal == v3_neg(normal@) && v3_dot(
                ray.direction@,
                normal@,
            ) >= 0,
    {
        proof {
            lemma_dot_fits(ray.direction@, normal@, 0x200000, 0x20000);
            lemma_v3_dot_neg(ray.direction@, normal@);
        }
        let d = ray.direction.dot(normal);
        let (normal, face) = if d < 0 {
            (normal, Face::Front)
        } else {
            (normal.neg(), Face::Back)
        };
        Hit { ray, distance, point, normal, material, face }
    }
}

/// A sphere whose center follows a motion curve, with a fixed radius and a
/// material shared by value.
#[derive(Clone, Copy)]
pub struct Sphere {
    pub center: Curve,
    pub radius: i64,
    pub material: Material,
}

/// A sphere the renderer accepts: a well-formed motion curve and a radius
/// between 1/4096 and 1024 world units.
pub open spec fn sphere_wf(s: Sphere) -> bool {
    curve_wf(s.center) && 16 <= s.radius <= POS_LIMIT
}

/// The discriminant `b^2 - a*c` of the ray-sphere quadratic, in the
/// half-coefficient form `a*t^2 + 2*b*t + c = 0`.
pub open spec fn sphere_discriminant(s: Sphere, r: RayV) -> int {
    let center = curve_at(s.center, r.time);
    let oc = v3_sub(r.origin, center);
    let a = v3_dot(r.direction, r.direction);
    let b = v3_dot(r.direction, oc);
    let c = v3_dot(oc, oc) - fmul(s.radius as int, s.radius as int);
    fmul(b, b) - fmul(a, c)
}

/// The exact mirror of the intersection routine.  The two-stage root check
/// takes the nearer root unless it is below the window, then retries with
/// the farther root; degenerate arithmetic (a vanishing direction, a hit
/// point beyond the origin range, a normal far from unit length) counts as
/// a miss, and `sphere_misses` names every case.
pub open spec fn sphere_hit(s: Sphere, r: RayV, tmin: int, tmax: int) -> Option<HitData> {
    let center = curve_at(s.center, r.time);
    let oc = v3_sub(r.origin, center);
    let a = v3_dot(r.direction, r.direction);
    let b = v3_dot(r.direction, oc);
    let disc = sphere_discriminant(s, r);
    if a <= 0 {
        None
    } else if disc < 0 {
        None
    } else {
        let sq = fsqrt(disc);
        let t1 = fdiv(-b - sq, a);
        if t1 >= tmax {
            None
        } else {
            let t = if t1 >= tmin {
                t1
            } else {
                fdiv(-b + sq, a)
            };
            if t < tmin || t >= tmax {
                None
            } else {
                let point = ray_at(r, t);
                if !in_range(point, ORIGIN_LIMIT as int) {
                    None
                } else {
                    let outward = v3_div(v3_sub(point, center), s.radius as int);
                    if !in_range(outward, 0x20000) || !(32768 <= v3_dot(outward, outward)
                        <= 131072) {
                        None
                    } else {
                        let on = oriented(r.direction, outward);
                        Some(HitData { distance: t, point, normal: on.0, face: on.1 })
                    }
                }
            }
        }
    }
}

/// When the intersection reports a miss, in the contract's words: a
/// vanishing direction (nonpositive self dot product), a negative
/// discriminant (the ray's line passes farther from the center than the
/// radius), the near root at or beyond the window's end, the selected root
/// outside the window, or one of the numeric guards -- a hit point beyond
/// `ORIGIN_LIMIT`, or a computed normal whose components leave `[-2, 2]` or
/// whose squared length leaves `[1/2, 2]`.
pub open spec fn sphere_misses(s: Sphere, r: RayV, tmin: int, tmax: int) -> bool {
    let center = curve_at(s.center, r.time);
    let oc = v3_sub(r.origin, center);
    let a = v3_dot(r.direction, r.direction);
    let b = v3_dot(r.direction, oc);
    let disc = sphere_discriminant(s, r);
    a <= 0 || disc < 0 || {
        let sq = fsqrt(disc);
        let t1 = fdiv(-b - sq, a);
        let t = if t1 >= tmin {
            t1
        } else {
            fdiv(-b + sq, a)
        };
        t1 >= tmax || t < tmin || t >= tmax || {
            let point = ray_at(r, t);
            let outward = v3_div(v3_sub(point, center), s.radius as int);
            !in_range(point, ORIGIN_LIMIT as int) || !in_range(outward, 0x20000) || !(32768
                <= v3_dot(outward, outward) <= 131072)
        }
    }
}

impl Sphere {
    /// The nearest intersection of the ray with this sphere at a distance in
    /// `[min_distance, max_distance)`, if any.  The window's end is capped
    /// at `DIST_LIMIT` (2^24 world units) -- the machine limit standing in
    /// for an unbounded far plane -- and `(r is None) == sphere_misses(..)`
    /// names every way a miss can arise, the numeric guards included.
    pub fn hit(&self, ray: Ray, min_distance: i64, max_distance: i64) -> (r: Option<Hit>)
        requires
            sphere_wf(*self),
            ray_wf(ray@),
            curve_time_ok(self.center, ray@.time),
            0 <= min_distance,
            min_distance <= max_distance,
            max_distance <= DIST_LIMIT,
        ensures
            (r is None) == sphere_misses(*self, ray@, min_distance as int, max_distance as int),
            match r {
                Some(h) => sphere_hit(*self, ray@, min_distance as int, max_distance as int)
                    == Some(h@) && h.ray == ray && h.material == self.material && min_distance
                    <= h.distance < max_distance && in_range(h@.normal, 0x20000) && 32768
                    <= v3_dot(h@.normal, h@.normal) <= 131072 && in_range(
                    h@.point,
                    ORIGIN_LIMIT as int,
                ) && v3_dot(ray@.direction, h@.normal) <= 0,
                None => sphere_hit(*self, ray@, min_distance as int, max_distance as int)
                    is None,
            },
    {
        let center = self.center.at(ray.time);
        proof {
            lemma_dot_fits(ray.direction@, ray.direction@, 0x200000, 0x200000);
        }
        let a = ray.direction.dot(ray.direction);
        if a <= 0 {
            return None;
        }
        let oc = ray.origin.minus(center);
        proof {
            lemma_dot_fits(ray.direction@, oc@, 0x200000, 0x80000000);
            lemma_dot_fits(oc@, oc@, 0x80000000, 0x80000000);
            lemma_fmul_abs(self.radius as int, self.radius as int, POS_LIMIT as int, POS_LIMIT as int);
        }
        let b = ray.direction.dot(oc);
        let c = oc.dot(oc) - fx_mul(self.radius, self.radius);
        proof {
            lemma_fmul_abs(b as int, b as int, 0x3000000000, 0x3000000000);
            lemma_fmul_abs(a as int, c as int, 0x10000000, 0x1000000000000);
        }
        let disc = fx_mul(b, b) - fx_mul(a, c);
        if disc < 0 {
            return None;
        }
        let sq = fx_sqrt(disc);
        proof {
            lemma_sqrt_bound(disc as int, sq as int);
            lemma_root_div_fits(-(b as int) - sq as int, a as int);
            lemma_root_div_fits(-(b as int) + sq as int, a as int);
        }
        let t1 = fx_div(-b - sq, a);
        if t1 >= max_distance {
            return None;
        }
        let t = if t1 >= min_distance {
            t1
        } else {
            fx_div(-b + sq, a)
        };
        if t < min_distance || t >= max_distance {
            return None;
        }
        proof {
            lemma_scale_fits(ray.direction@, t as int, 0x200000, DIST_LIMIT as int);
        }
        let point = ray.at(t);
        if !in_range_check(point, ORIGIN_LIMIT) {
            return None;
        }
        let q = point.minus(center);
        proof {
            lemma_outward_div_fits(q@, self.radius as int);
        }
        let outward = q.div_s(self.radius);
        if !in_range_check(outward, 131072) {
            return None;
        }
        proof {
            lemma_dot_fits(outward@, outward@, 0x20000, 0x20000);
        }
        let dd = outward.dot(outward);
        if dd < 32768 || dd > 131072 {
            return None;
        }
        proof {
            lemma_v3_dot_neg_neg(outward@, outward@);
        }
        Some(Hit::new(ray, t, point, outward, self.material))
    }

    /// The box holding the sphere over the shutter interval: a corner-offset
    /// box at a fixed center, or the merge of the boxes at the two endpoint
    /// times of a moving center.
    pub fn aabb(&self, time0: i64, time1: i64) -> (r: Aabb)
        requires
            sphere_wf(*self),
            curve_time_ok(self.center, time0 as int),
            curve_time_ok(self.center, time1 as int),
        ensures
            r@ == sphere_aabb(*self, time0 as int, time1 as int),
    {
        let corner = Vec3(self.radius, self.radius, self.radius);
        match self.center {
            Curve::Constant(v) => Aabb { min: v.minus(corner), max: v.plus(corner) },
            _ => {
                let c0 = self.center.at(time0);
                let c1 = self.center.at(time1);
                let box0 = Aabb { min: c0.minus(corner), max: c0.plus(corner) };
                let box1 = Aabb { min: c1.minus(corner), max: c1.plus(corner) };
                box0.merge(box1)
            },
        }
    }
}

/// The bounding box of a sphere over a time interval.
pub open spec fn sphere_aabb(s: Sphere, time0: int, time1: int) -> AabbV {
    let corner = V3 { x: s.radius as int, y: s.radius as int, z: s.radius as int };
    match s.center {
        Curve::Constant(v) => AabbV { min: v3_sub(v@, corner), max: v3_add(v@, corner) },
        Curve::Linear(_, _, _, _) => {
            let c0 = curve_at(s.center, time0);
            let c1 = curve_at(s.center, time1);
            aabb_merge(
                AabbV { min: v3_sub(c0, corner), max: v3_add(c0, corner) },
                AabbV { min: v3_sub(c1, corner), max: v3_add(c1, corner) },
            )
        },
    }
}

/// A ray whose quadratic has a negative discriminant misses the sphere:
/// the ray's line stays farther from the instantaneous center than the
/// radius, whatever the distance window.
pub proof fn lemma_negative_discriminant_misses(s: Sphere, r: RayV, tmin: int, tmax: int)
    requires
        sphere_discriminant(s, r) < 0,
    ensures
        sphere_hit(s, r, tmin, tmax) is None,
{
}

/// The geometric form of the bounding-sphere miss: for an exactly unit
/// direction, when the self dot product of `oc` less the squared projection
/// of `oc` onto the direction -- the squared distance from the ray's line
/// to the instantaneous center -- exceeds the squared radius, the
/// discriminant is negative and the ray misses, whatever the window.
pub proof fn lemma_perpendicular_miss(s: Sphere, r: RayV, tmin: int, tmax: int)
    requires
        v3_dot(r.direction, r.direction) == SCALE as int,
        ({
            let oc = v3_sub(r.origin, curve_at(s.center, r.time));
            let b = v3_dot(r.direction, oc);
            v3_dot(oc, oc) - fmul(b, b) > fmul(s.radius as int, s.radius as int)
        }),
    ensures
        sphere_discriminant(s, r) < 0,
        sphere_hit(s, r, tmin, tmax) is None,
{
    let oc = v3_sub(r.origin, curve_at(s.center, r.time));
    let c = v3_dot(oc, oc) - fmul(s.radius as int, s.radius as int);
    lemma_fmul_scale(c);
}

/// The head-on distance law: a ray fired along the axis at a sphere whose
/// instantaneous center lies `m` straight ahead strikes it at distance
/// `m - radius` -- the distance from origin to center, less the radius --
/// at the point that far along the ray, with the outward unit normal
/// pointing from the center back toward the origin, on the front face.
/// The radius must be a whole multiple of 256 steps (a 1/256 world-unit
/// grid) so that its square is exactly representable.
pub proof fn lemma_head_on_hit(s: Sphere, r: RayV, m: int, tmin: int, tmax: int)
    requires
        sphere_wf(s),
        in_range(r.origin, POS_LIMIT as int),
        r.direction == (V3 { x: 0, y: 0, z: -(SCALE as int) }),
        curve_at(s.center, r.time) == v3_add(r.origin, V3 { x: 0, y: 0, z: -m }),
        s.radius % 256 == 0,
        s.radius < m <= POS_LIMIT,
        0 <= tmin <= m - s.radius,
        m - s.radius < tmax,
    ensures
        sphere_hit(s, r, tmin, tmax) == Some(
            (HitData {
                distance: m - s.radius,
                point: v3_add(r.origin, V3 { x: 0, y: 0, z: -(m - s.radius) }),
                normal: V3 { x: 0, y: 0, z: SCALE as int },
                face: Face::Front,
            }),
        ),
{
    let rad = s.radius as int;
    let center = curve_at(s.center, r.time);
    let oc = v3_sub(r.origin, center);
    assert(oc == (V3 { x: 0, y: 0, z: m }));
    // the quadratic's coefficients are exact
    lemma_fmul_zero(0);
    lemma_fmul_neg(SCALE as int, SCALE as int);
    lemma_fmul_neg(-(SCALE as int), SCALE as int);
    lemma_fmul_scale(SCALE as int);
    assert(v3_dot(r.direction, r.direction) == SCALE as int);
    lemma_fmul_neg(SCALE as int, m);
    lemma_fmul_scale(m);
    assert(v3_dot(r.direction, oc) == -m);
    lemma_fmul_neg(m, m);
    lemma_fmul_neg(-m, m);
    let cval = fmul(m, m) - fmul(rad, rad);
    lemma_fmul_scale(cval);
    assert(sphere_discriminant(s, r) == fmul(rad, rad));
    // the radius' square is exactly representable, so its root is itself
    let k = rad / 256;
    lemma_fundamental_div_mod(rad, 256);
    assert(rad == 256 * k);
    assert(rad * rad == 65536 * (k * k)) by (nonlinear_arith)
        requires
            rad == 256 * k,
    ;
    assert(k * k >= 0) by (nonlinear_arith);
    lemma_div_multiples_vanish(k * k, 65536);
    assert(fmul(rad, rad) == k * k);
    assert(rad * rad < (rad + 1) * (rad + 1)) by (nonlinear_arith)
        requires
            rad >= 0,
    ;
    lemma_isqrt_unique(rad * rad, rad);
    assert(fsqrt(fmul(rad, rad)) == rad);
    // the near root is exact and selected
    let t = m - rad;
    lemma_fmul_scale(t);
    assert(fdiv(-(-m) - rad, SCALE as int) == t);
    // the hit point and outward unit normal are exact
    lemma_fmul_zero(t);
    lemma_fmul_neg(SCALE as int, t);
    assert(ray_at(r, t) == v3_add(r.origin, V3 { x: 0, y: 0, z: -t }));
    let point = ray_at(r, t);
    assert(in_range(point, ORIGIN_LIMIT as int));
    assert(v3_sub(point, center) == (V3 { x: 0, y: 0, z: rad }));
    lemma_div_of0(rad);
    assert(fdiv(0, rad) == 0);
    lemma_div_multiples_vanish(65536, rad);
    assert(fdiv(rad, rad) == SCALE as int);
    let outward = v3_div(v3_sub(point, center), rad);
    assert(outward == (V3 { x: 0, y: 0, z: SCALE as int }));
    assert(v3_dot(outward, outward) == SCALE as int);
    assert(v3_dot(r.direction, outward) == -(SCALE as int));
}

/// The square root of the discriminant stays below 2^40.
proof fn lemma_sqrt_bound(disc: int, sq: int)
    requires
        0 <= disc <= 0x7fffffffffffffff,
        sq == fsqrt(disc),
    ensures
        0 <= sq < 0x10000000000,
{
    lemma_isqrt_bracket(disc * SCALE);
    if sq >= 0x10000000000 {
        assert(sq * sq >= 0x10000000000 * 0x10000000000) by (nonlinear_arith)
            requires
                sq >= 0x10000000000,
        ;
    }
}

/// A root quotient `(-b +- sq) / a` fits in an `i64`.
proof fn lemma_root_div_fits(num: int, a: int)
    requires
        a >= 1,
        s_abs(num) <= 0x20000000000,
    ensures
        fits_i64(fdiv(num, a)),
{
    lemma_fdiv_abs(num, a, 0x20000000000, 1);
}

/// The normal quotient `q / radius` fits in an `i64`.
proof fn lemma_outward_div_fits(q: V3, radius: int)
    requires
        in_range(q, 0x400000000000),
        16 <= radius,
    ensures
        fits_i64(v3_div(q, radius).x),
        fits_i64(v3_div(q, radius).y),
        fits_i64(v3_div(q, radius).z),
{
    lemma_fdiv_abs(q.x, radius, 0x400000000000, 16);
    lemma_fdiv_abs(q.y, radius, 0x400000000000, 16);
    lemma_fdiv_abs(q.z, radius, 0x400000000000, 16);
}

} // verus!
