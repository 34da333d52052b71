//! Vector and ray algebra over fixed-point scalars.
//!
//! `Vec3` is a point, a direction or an RGB color; its mathematical model is
//! `V3`, a triple of unbounded integers, and every operation's contract is an
//! exact formula over that model.

use vstd::prelude::*;
use vstd::arithmetic::div_mod::{
    lemma_div_is_ordered, lemma_div_is_ordered_by_denominator, lemma_div_pos_is_pos,
    lemma_fundamental_div_mod, lemma_mod_division_less_than_divisor, lemma_hoist_over_denominator,
    lemma_div_multiples_vanish,
};
use vstd::arithmetic::mul::lemma_mul_inequality;
use crate::fixed::{
    SCALE, s_abs, tdiv, fmul, fdiv, fits_i64, isqrt_spec, fsqrt, lemma_isqrt_bracket,
    lemma_isqrt_ordered, lemma_isqrt_unique, lemma_fmul_abs, lemma_tdiv_abs, lemma_fdiv_abs,
    lemma_fdiv_neg, lemma_fmul_neg, lemma_fmul_scale, fx_mul, fx_div, fx_sqrt,
};
use crate::rng::RandomSource;

verus! {

/// Largest magnitude of a position handed to the library: 1024 world units.
pub const POS_LIMIT: i64 = 0x4000000;

/// Largest magnitude a motion curve can reach within its accepted times.
pub const CENTER_LIMIT: i64 = 0x40000000;

/// Largest magnitude of a ray origin: positions handed in stay within
/// `POS_LIMIT`, and a hit point on a sphere of accepted center and radius
/// stays within twice that, so bounce origins fit here with room to spare.
pub const ORIGIN_LIMIT: i64 = 0x10000000;

/// Largest magnitude of a component of a normalized direction: `17 * SCALE`.
pub const DIR_LIMIT: i64 = 0x110000;

/// Largest accepted hit-distance window bound.
pub const DIST_LIMIT: i64 = 0x10000000000;

/// Largest magnitude of a time sample or keyframe time.
pub const TIME_LIMIT: i64 = 0x80000000;

/// The mathematical model of a `Vec3`: three unbounded integers, each a
/// fixed-point scalar.
pub ghost struct V3 {
    pub x: int,
    pub y: int,
    pub z: int,
}

/// Every component's magnitude is at most `b`.
pub open spec fn in_range(v: V3, b: int) -> bool {
    s_abs(v.x) <= b && s_abs(v.y) <= b && s_abs(v.z) <= b
}

pub open spec fn v3_add(a: V3, b: V3) -> V3 {
    V3 { x: a.x + b.x, y: a.y + b.y, z: a.z + b.z }
}

pub open spec fn v3_sub(a: V3, b: V3) -> V3 {
    V3 { x: a.x - b.x, y: a.y - b.y, z: a.z - b.z }
}

pub open spec fn v3_neg(a: V3) -> V3 {
    V3 { x: -a.x, y: -a.y, z: -a.z }
}

/// Scaling by a fixed-point factor.
pub open spec fn v3_scale(a: V3, k: int) -> V3 {
    V3 { x: fmul(a.x, k), y: fmul(a.y, k), z: fmul(a.z, k) }
}

/// Component-wise product, the attenuation of a color by an albedo.
pub open spec fn v3_hadamard(a: V3, b: V3) -> V3 {
    V3 { x: fmul(a.x, b.x), y: fmul(a.y, b.y), z: fmul(a.z, b.z) }
}

/// Division by a fixed-point scalar.
pub open spec fn v3_div(a: V3, k: int) -> V3
    recommends
        k != 0,
{
    V3 { x: fdiv(a.x, k), y: fdiv(a.y, k), z: fdiv(a.z, k) }
}

pub open spec fn v3_dot(a: V3, b: V3) -> int {
    fmul(a.x, b.x) + fmul(a.y, b.y) + fmul(a.z, b.z)
}

pub open spec fn v3_cross(a: V3, b: V3) -> V3 {
    V3 {
        x: fmul(a.y, b.z) - fmul(a.z, b.y),
        y: fmul(a.z, b.x) - fmul(a.x, b.z),
        z: fmul(a.x, b.y) - fmul(a.y, b.x),
    }
}

/// Fixed-point length: the square root of the self dot product.
pub open spec fn v3_len(a: V3) -> int {
    fsqrt(v3_dot(a, a))
}

/// The normalized vector: each component divided by the length.
pub open spec fn v3_unit(a: V3) -> V3
    recommends
        v3_len(a) > 0,
{
    v3_div(a, v3_len(a))
}

/// A 3-component fixed-point vector, used interchangeably as a point, a
/// direction, or an RGB color.
#[derive(Clone, Copy, PartialEq, Eq, Structural, Debug)]
pub struct Vec3(pub i64, pub i64, pub i64);

impl View for Vec3 {
    type V = V3;

    open spec fn view(&self) -> V3 {
        V3 { x: self.0 as int, y: self.1 as int, z: self.2 as int }
    }
}

/// A fixed-point square is never negative.
pub proof fn lemma_fmul_self_nonneg(a: int)
    ensures
        fmul(a, a) >= 0,
{
    assert(a * a >= 0) by (nonlinear_arith);
    lemma_div_pos_is_pos(a * a, SCALE as int);
}

/// Bounds under which a dot product fits in an `i64`, with its magnitude.
pub proof fn lemma_dot_fits(a: V3, b: V3, ba: int, bb: int)
    requires
        in_range(a, ba),
        in_range(b, bb),
        0 <= ba,
        0 <= bb,
        ba * bb <= 0x20000000000000000000,
    ensures
        fits_i64(fmul(a.x, b.x)),
        fits_i64(fmul(a.y, b.y)),
        fits_i64(fmul(a.z, b.z)),
        fits_i64(fmul(a.x, b.x) + fmul(a.y, b.y)),
        fits_i64(v3_dot(a, b)),
        s_abs(v3_dot(a, b)) <= 3 * ((ba * bb) / (SCALE as int)),
{
    lemma_fmul_abs(a.x, b.x, ba, bb);
    lemma_fmul_abs(a.y, b.y, ba, bb);
    lemma_fmul_abs(a.z, b.z, ba, bb);
    lemma_div_is_ordered(ba * bb, 0x20000000000000000000, SCALE as int);
    lemma_div_pos_is_pos(ba * bb, SCALE as int);
}

/// Bounds under which a cross product fits in an `i64`, with its magnitude.
pub proof fn lemma_cross_fits(a: V3, b: V3, ba: int, bb: int)
    requires
        in_range(a, ba),
        in_range(b, bb),
        0 <= ba,
        0 <= bb,
        ba * bb <= 0x20000000000000000000,
    ensures
        in_range(v3_cross(a, b), 2 * ((ba * bb) / (SCALE as int))),
        fits_i64(v3_cross(a, b).x),
        fits_i64(v3_cross(a, b).y),
        fits_i64(v3_cross(a, b).z),
        fits_i64(fmul(a.y, b.z)),
        fits_i64(fmul(a.z, b.y)),
        fits_i64(fmul(a.z, b.x)),
        fits_i64(fmul(a.x, b.z)),
        fits_i64(fmul(a.x, b.y)),
        fits_i64(fmul(a.y, b.x)),
{
    lemma_fmul_abs(a.y, b.z, ba, bb);
    lemma_fmul_abs(a.z, b.y, ba, bb);
    lemma_fmul_abs(a.z, b.x, ba, bb);
    lemma_fmul_abs(a.x, b.z, ba, bb);
    lemma_fmul_abs(a.x, b.y, ba, bb);
    lemma_fmul_abs(a.y, b.x, ba, bb);
    lemma_div_is_ordered(ba * bb, 0x20000000000000000000, SCALE as int);
    lemma_div_pos_is_pos(ba * bb, SCALE as int);
}

/// Bounds under which a scaling fits in an `i64`, with its magnitude.
pub proof fn lemma_scale_fits(a: V3, k: int, ba: int, bk: int)
    requires
        in_range(a, ba),
        s_abs(k) <= bk,
        0 <= ba,
        0 <= bk,
        ba * bk <= 0x20000000000000000000,
    ensures
        in_range(v3_scale(a, k), (ba * bk) / (SCALE as int)),
        fits_i64(v3_scale(a, k).x),
        fits_i64(v3_scale(a, k).y),
        fits_i64(v3_scale(a, k).z),
{
    lemma_fmul_abs(a.x, k, ba, bk);
    lemma_fmul_abs(a.y, k, ba, bk);
    lemma_fmul_abs(a.z, k, ba, bk);
    lemma_div_is_ordered(ba * bk, 0x20000000000000000000, SCALE as int);
    lemma_div_pos_is_pos(ba * bk, SCALE as int);
}

/// One component of a normalized vector is at most `17 * SCALE` in magnitude:
/// a component is at most the length plus one unit, and the length is at
/// least `SCALE / 16`.
proof fn lemma_unit_comp_bound(v: int, d: int, l: int)
    requires
        0 <= d,
        fmul(v, v) <= d,
        l == isqrt_spec(d * SCALE),
        4096 <= l,
    ensures
        s_abs(fdiv(v, l)) <= 0x110000,
{
    lemma_isqrt_bracket(d * SCALE);
    assert(v * v >= 0) by (nonlinear_arith);
    lemma_fundamental_div_mod(v * v, SCALE as int);
    lemma_mod_division_less_than_divisor(v * v, SCALE as int);
    // v * v < (d + 1) * SCALE <= d * SCALE + SCALE < (l + 1) * (l + 1) + SCALE
    assert(v * v < (l + 1) * (l + 1) + SCALE);
    assert(s_abs(v) <= l + SCALE) by {
        if s_abs(v) > l + SCALE {
            assert(v * v >= (l + SCALE + 1) * (l + SCALE + 1)) by (nonlinear_arith)
                requires
                    s_abs(v) >= l + SCALE + 1,
                    l >= 0,
            ;
            assert((l + SCALE + 1) * (l + SCALE + 1) >= (l + 1) * (l + 1) + SCALE)
                by (nonlinear_arith)
                requires
                    l >= 0,
            ;
        }
    }
    assert(s_abs(v * SCALE) <= (l + SCALE) * SCALE);
    lemma_tdiv_abs(v * SCALE, l, (l + SCALE) * SCALE);
    assert((l + SCALE) * SCALE == 0x100000000 + SCALE * l);
    lemma_hoist_over_denominator(0x100000000, SCALE as int, l as nat);
    lemma_div_is_ordered_by_denominator(0x100000000, 4096, l);
    assert(0x100000000int / 4096 == 0x100000) by (nonlinear_arith);
}

impl Vec3 {
    /// Component-wise sum.
    pub fn plus(self, v: Vec3) -> (r: Vec3)
        requires
            fits_i64(self@.x + v@.x),
            fits_i64(self@.y + v@.y),
            fits_i64(self@.z + v@.z),
        ensures
            r@ == v3_add(self@, v@),
    {
        Vec3(self.0 + v.0, self.1 + v.1, self.2 + v.2)
    }

    /// Component-wise difference.
    pub fn minus(self, v: Vec3) -> (r: Vec3)
        requires
            fits_i64(self@.x - v@.x),
            fits_i64(self@.y - v@.y),
            fits_i64(self@.z - v@.z),
        ensures
            r@ == v3_sub(self@, v@),
    {
        Vec3(self.0 - v.0, self.1 - v.1, self.2 - v.2)
    }

    /// Component-wise negation.
    pub fn neg(self) -> (r: Vec3)
        requires
            self.0 > i64::MIN,
            self.1 > i64::MIN,
            self.2 > i64::MIN,
        ensures
            r@ == v3_neg(self@),
    {
        Vec3(-self.0, -self.1, -self.2)
    }

    /// Scaling by a fixed-point factor.
    pub fn scale(self, k: i64) -> (r: Vec3)
        requires
            fits_i64(v3_scale(self@, k as int).x),
            fits_i64(v3_scale(self@, k as int).y),
            fits_i64(v3_scale(self@, k as int).z),
        ensures
            r@ == v3_scale(self@, k as int),
    {
        Vec3(fx_mul(self.0, k), fx_mul(self.1, k), fx_mul(self.2, k))
    }

    /// Component-wise product: a color attenuated by an albedo.
    pub fn hadamard(self, v: Vec3) -> (r: Vec3)
        requires
            fits_i64(v3_hadamard(self@, v@).x),
            fits_i64(v3_hadamard(self@, v@).y),
            fits_i64(v3_hadamard(self@, v@).z),
        ensures
            r@ == v3_hadamard(self@, v@),
    {
        Vec3(fx_mul(self.0, v.0), fx_mul(self.1, v.1), fx_mul(self.2, v.2))
    }

    /// Division by a fixed-point scalar.
    pub fn div_s(self, k: i64) -> (r: Vec3)
        requires
            k != 0,
            fits_i64(v3_div(self@, k as int).x),
            fits_i64(v3_div(self@, k as int).y),
            fits_i64(v3_div(self@, k as int).z),
        ensures
            r@ == v3_div(self@, k as int),
    {
        Vec3(fx_div(self.0, k), fx_div(self.1, k), fx_div(self.2, k))
    }

    /// The dot product.
    pub fn dot(self, v: Vec3) -> (r: i64)
        requires
            fits_i64(fmul(self@.x, v@.x)),
            fits_i64(fmul(self@.y, v@.y)),
            fits_i64(fmul(self@.z, v@.z)),
            fits_i64(fmul(self@.x, v@.x) + fmul(self@.y, v@.y)),
            fits_i64(v3_dot(self@, v@)),
        ensures
            r == v3_dot(self@, v@),
    {
        fx_mul(self.0, v.0) + fx_mul(self.1, v.1) + fx_mul(self.2, v.2)
    }

    /// The cross product.
    pub fn cross(self, v: Vec3) -> (r: Vec3)
        requires
            fits_i64(fmul(self@.y, v@.z)),
            fits_i64(fmul(self@.z, v@.y)),
            fits_i64(fmul(self@.z, v@.x)),
            fits_i64(fmul(self@.x, v@.z)),
            fits_i64(fmul(self@.x, v@.y)),
            fits_i64(fmul(self@.y, v@.x)),
            fits_i64(v3_cross(self@, v@).x),
            fits_i64(v3_cross(self@, v@).y),
            fits_i64(v3_cross(self@, v@).z),
        ensures
            r@ == v3_cross(self@, v@),
    {
        Vec3(
            fx_mul(self.1, v.2) - fx_mul(self.2, v.1),
            fx_mul(self.2, v.0) - fx_mul(self.0, v.2),
            fx_mul(self.0, v.1) - fx_mul(self.1, v.0),
        )
    }

    /// The fixed-point length.
    pub fn len(self) -> (r: i64)
        requires
            in_range(self@, 0x10000000),
        ensures
            r == v3_len(self@),
            r >= 0,
    {
        proof {
            lemma_dot_fits(self@, self@, 0x10000000, 0x10000000);
            lemma_fmul_self_nonneg(self@.x);
            lemma_fmul_self_nonneg(self@.y);
            lemma_fmul_self_nonneg(self@.z);
        }
        let d = self.dot(self);
        fx_sqrt(d)
    }

    /// The normalized vector.  The length must be at least `SCALE / 16`, a
    /// sixteenth of a world unit; every component of the result is then at
    /// most `17 * SCALE` in magnitude.
    pub fn unit(self) -> (r: Vec3)
        requires
            in_range(self@, 0x10000000),
            v3_len(self@) >= 4096,
        ensures
            r@ == v3_unit(self@),
            in_range(r@, 0x110000),
    {
        proof {
            lemma_dot_fits(self@, self@, 0x10000000, 0x10000000);
            lemma_fmul_self_nonneg(self@.x);
            lemma_fmul_self_nonneg(self@.y);
            lemma_fmul_self_nonneg(self@.z);
        }
        let l = self.len();
        proof {
            let d = v3_dot(self@, self@);
            lemma_unit_comp_bound(self@.x, d, l as int);
            lemma_unit_comp_bound(self@.y, d, l as int);
            lemma_unit_comp_bound(self@.z, d, l as int);
        }
        self.div_s(l)
    }

    /// A vector with every component drawn uniformly from `[min, max)`.
    pub fn random_in_cube(min: i64, max: i64, source: &mut RandomSource) -> (r: Vec3)
        requires
            min < max,
            max - min <= i64::MAX,
        ensures
            min <= r@.x < max,
            min <= r@.y < max,
            min <= r@.z < max,
    {
        let x = source.next_range(min, max);
        let y = source.next_range(min, max);
        let z = source.next_range(min, max);
        Vec3(x, y, z)
    }

    /// A vector with every component drawn uniformly from the unit interval.
    pub fn random_in_unit_cube(source: &mut RandomSource) -> (r: Vec3)
        ensures
            0 <= r@.x < SCALE,
            0 <= r@.y < SCALE,
            0 <= r@.z < SCALE,
            in_range(r@, SCALE as int),
    {
        Self::random_in_cube(0, 65536, source)
    }

    /// A point inside the unit ball, by rejection sampling from the cube;
    /// after too many rejections the center is returned, still in the ball.
    pub fn random_in_unit_sphere(source: &mut RandomSource) -> (r: Vec3)
        ensures
            in_ball(r@),
    {
        let mut tries: u64 = 0;
        while tries < 64
            invariant
                true,
            decreases 64 - tries,
        {
            let v = Self::random_in_cube(-65536, 65536, source);
            proof {
                lemma_dot_fits(v@, v@, 65536, 65536);
            }
            let d = v.dot(v);
            if d <= 65536 {
                return v;
            }
            tries = tries + 1;
        }
        Vec3(0, 0, 0)
    }

    /// A point on the unit sphere: a unit-ball sample of workable length,
    /// normalized; after too many rejections a fixed axis direction.
    pub fn random_on_unit_sphere(source: &mut RandomSource) -> (r: Vec3)
        ensures
            on_sphere(r@),
            in_range(r@, DIR_LIMIT as int),
    {
        let mut tries: u64 = 0;
        while tries < 64
            invariant
                true,
            decreases 64 - tries,
        {
            let v = Self::random_in_cube(-65536, 65536, source);
            proof {
                lemma_dot_fits(v@, v@, 65536, 65536);
            }
            let d = v.dot(v);
            if 256 <= d && d <= 65536 {
                proof {
                    lemma_sample_len_bounds(v@);
                }
                let u = v.unit();
                proof {
                    assert(unit_source(v@) && u@ == v3_unit(v@));
                }
                return u;
            }
            tries = tries + 1;
        }
        Vec3(0, 0, 65536)
    }

    /// A point inside the unit disk of the xy plane, by rejection sampling;
    /// after too many rejections the center, still inside.
    pub fn random_in_unit_disk(source: &mut RandomSource) -> (r: Vec3)
        ensures
            in_ball(r@),
            r@.z == 0,
    {
        let mut tries: u64 = 0;
        while tries < 64
            invariant
                true,
            decreases 64 - tries,
        {
            let x = source.next_range(-65536, 65536);
            let y = source.next_range(-65536, 65536);
            let v = Vec3(x, y, 0);
            proof {
                lemma_dot_fits(v@, v@, 65536, 65536);
            }
            let d = v.dot(v);
            if d <= 65536 {
                return v;
            }
            tries = tries + 1;
        }
        Vec3(0, 0, 0)
    }
}

/// Inside the unit ball: every component at most one, and the self dot
/// product at most one.
pub open spec fn in_ball(v: V3) -> bool {
    in_range(v, SCALE as int) && v3_dot(v, v) <= SCALE as int
}

/// A ball sample long enough to normalize.
pub open spec fn unit_source(v: V3) -> bool {
    in_ball(v) && 256 <= v3_dot(v, v)
}

/// What a unit-sphere draw can be: the fixed fallback axis, or a normalized
/// ball sample.
pub open spec fn on_sphere(s: V3) -> bool {
    s == (V3 { x: 0, y: 0, z: SCALE as int }) || (exists|v: V3|
        #[trigger] unit_source(v) && s == v3_unit(v))
}

/// A ball sample with dot product in `[256, SCALE]` has length in
/// `[4096, SCALE]`.
pub proof fn lemma_sample_len_bounds(v: V3)
    requires
        256 <= v3_dot(v, v) <= SCALE as int,
    ensures
        4096 <= v3_len(v) <= SCALE as int,
{
    lemma_isqrt_ordered(0x1000000, v3_dot(v, v) * SCALE);
    lemma_isqrt_ordered(v3_dot(v, v) * SCALE, 0x100000000);
    lemma_isqrt_unique(0x1000000, 4096);
    lemma_isqrt_unique(0x100000000, 65536);
}

/// Dotting against a negated vector negates the dot product.
pub proof fn lemma_v3_dot_neg(a: V3, b: V3)
    ensures
        v3_dot(a, v3_neg(b)) == -v3_dot(a, b),
{
    lemma_fmul_neg(a.x, b.x);
    lemma_fmul_neg(a.y, b.y);
    lemma_fmul_neg(a.z, b.z);
}

/// Scaling by one (a whole `SCALE`) is the identity.
pub proof fn lemma_v3_scale_identity(v: V3)
    ensures
        v3_scale(v, SCALE as int) == v,
{
    lemma_fmul_scale(v.x);
    lemma_fmul_scale(v.y);
    lemma_fmul_scale(v.z);
}

/// Negating both vectors keeps the dot product.
pub proof fn lemma_v3_dot_neg_neg(a: V3, b: V3)
    ensures
        v3_dot(v3_neg(a), v3_neg(b)) == v3_dot(a, b),
{
    lemma_fmul_neg(a.x, -b.x);
    lemma_fmul_neg(a.x, b.x);
    lemma_fmul_neg(a.y, -b.y);
    lemma_fmul_neg(a.y, b.y);
    lemma_fmul_neg(a.z, -b.z);
    lemma_fmul_neg(a.z, b.z);
}

/// Normalizing a vector that is already exactly unit length (its self dot
/// product is exactly one) gives the vector back unchanged.
pub proof fn lemma_unit_of_unit(v: V3)
    requires
        v3_dot(v, v) == SCALE as int,
    ensures
        v3_unit(v) == v,
{
    lemma_isqrt_unique(0x100000000, 65536);
    assert(v3_len(v) == SCALE as int);
    lemma_fmul_scale(v.x);
    lemma_fmul_scale(v.y);
    lemma_fmul_scale(v.z);
}

/// A vector whose self dot product is at least 256 is long enough to
/// normalize: its length is at least 4096, a sixteenth of a unit.
pub proof fn lemma_len_lower(v: V3)
    requires
        v3_dot(v, v) >= 256,
    ensures
        v3_len(v) >= 4096,
{
    lemma_isqrt_ordered(0x1000000, v3_dot(v, v) * SCALE);
    lemma_isqrt_unique(0x1000000, 4096);
}

/// Whether every component's magnitude is at most `b`.
pub fn in_range_check(v: Vec3, b: i64) -> (r: bool)
    requires
        b >= 0,
    ensures
        r == in_range(v@, b as int),
{
    -b <= v.0 && v.0 <= b && -b <= v.1 && v.1 <= b && -b <= v.2 && v.2 <= b
}

/// The mathematical model of a `Ray`.
pub ghost struct RayV {
    pub origin: V3,
    pub direction: V3,
    pub time: int,
}

/// A ray begins at an origin point and continues in a direction, carrying
/// the time sample at which it was cast.
#[derive(Clone, Copy, PartialEq, Eq, Structural, Debug)]
pub struct Ray {
    pub origin: Vec3,
    pub direction: Vec3,
    pub time: i64,
}

impl View for Ray {
    type V = RayV;

    open spec fn view(&self) -> RayV {
        RayV { origin: self.origin@, direction: self.direction@, time: self.time as int }
    }
}

/// The point a ray reaches after the given distance.
pub open spec fn ray_at(r: RayV, distance: int) -> V3 {
    v3_add(r.origin, v3_scale(r.direction, distance))
}

impl Ray {
    pub fn at(self, distance: i64) -> (p: Vec3)
        requires
            fits_i64(v3_scale(self.direction@, distance as int).x),
            fits_i64(v3_scale(self.direction@, distance as int).y),
            fits_i64(v3_scale(self.direction@, distance as int).z),
            fits_i64(ray_at(self@, distance as int).x),
            fits_i64(ray_at(self@, distance as int).y),
            fits_i64(ray_at(self@, distance as int).z),
        ensures
            p@ == ray_at(self@, distance as int),
    {
        self.origin.plus(self.direction.scale(distance))
    }
}

/// A position as a function of time: fixed, or linearly interpolated between
/// two keyframes (extrapolating moderately outside the keyframe window).
#[derive(Clone, Copy, PartialEq, Eq, Structural, Debug)]
pub enum Curve {
    Constant(Vec3),
    Linear(Vec3, Vec3, i64, i64),
}

/// Keyframe positions within bounds, and an increasing keyframe window.
pub open spec fn curve_wf(c: Curve) -> bool {
    match c {
        Curve::Constant(v) => in_range(v@, POS_LIMIT as int),
        Curve::Linear(v0, v1, t0, t1) => in_range(v0@, POS_LIMIT as int) && in_range(
            v1@,
            POS_LIMIT as int,
        ) && t0 < t1 && s_abs(t0 as int) <= TIME_LIMIT as int && s_abs(t1 as int)
            <= TIME_LIMIT as int,
    }
}

/// Times at which a curve may be evaluated: up to four window widths of
/// extrapolation on either side, which keeps the position bounded.
pub open spec fn curve_time_ok(c: Curve, time: int) -> bool {
    match c {
        Curve::Constant(_) => true,
        Curve::Linear(_, _, t0, t1) => t0 - 4 * (t1 - t0) <= time <= t1 + 4 * (t1 - t0),
    }
}

/// The curve's position at a time: the keyframe delta, scaled by the elapsed
/// time and divided by the window width, from the first keyframe.
pub open spec fn curve_at(c: Curve, time: int) -> V3 {
    match c {
        Curve::Constant(v) => v@,
        Curve::Linear(v0, v1, t0, t1) => v3_add(
            v0@,
            v3_div(v3_scale(v3_sub(v1@, v0@), time - t0), t1 - t0),
        ),
    }
}

impl Curve {
    /// The position at a time.  Extrapolation beyond the keyframe window is
    /// accepted up to four window widths on either side -- a machine limit
    /// of the fixed-point range, where unbounded extrapolation would
    /// overflow -- and is exact interpolation arithmetic within it.
    pub fn at(self, time: i64) -> (p: Vec3)
        requires
            curve_wf(self),
            curve_time_ok(self, time as int),
        ensures
            p@ == curve_at(self, time as int),
            in_range(p@, CENTER_LIMIT as int),
    {
        match self {
            Curve::Constant(v) => v,
            Curve::Linear(v0, v1, t0, t1) => {
                proof {
                    lemma_linear_curve_bounds(v0@, v1@, t0 as int, t1 as int, time as int);
                }
                let delta = v1.minus(v0);
                let scaled = delta.scale(time - t0);
                let moved = scaled.div_s(t1 - t0);
                v0.plus(moved)
            },
        }
    }
}

/// Bounds for evaluating a linear curve: with keyframes within `POS_LIMIT`
/// and a time within the accepted band, every intermediate fits and the
/// result stays within `CENTER_LIMIT`.
proof fn lemma_linear_curve_bounds(a: V3, b: V3, t0: int, t1: int, time: int)
    requires
        in_range(a, POS_LIMIT as int),
        in_range(b, POS_LIMIT as int),
        t0 < t1,
        s_abs(t0) <= TIME_LIMIT as int,
        s_abs(t1) <= TIME_LIMIT as int,
        t0 - 4 * (t1 - t0) <= time <= t1 + 4 * (t1 - t0),
    ensures
        fits_i64(time - t0),
        fits_i64(t1 - t0),
        in_range(v3_sub(b, a), 2 * POS_LIMIT as int),
        in_range(v3_scale(v3_sub(b, a), time - t0), 0x10000000000000),
        fits_i64(v3_scale(v3_sub(b, a), time - t0).x),
        fits_i64(v3_scale(v3_sub(b, a), time - t0).y),
        fits_i64(v3_scale(v3_sub(b, a), time - t0).z),
        in_range(v3_div(v3_scale(v3_sub(b, a), time - t0), t1 - t0), 5 * 0x8000000int),
        in_range(
            v3_add(a, v3_div(v3_scale(v3_sub(b, a), time - t0), t1 - t0)),
            CENTER_LIMIT as int,
        ),
{
    let d = v3_sub(b, a);
    let dt = time - t0;
    let den = t1 - t0;
    assert(s_abs(dt) <= 5 * den);
    lemma_curve_comp_bound(d.x, dt, den);
    lemma_curve_comp_bound(d.y, dt, den);
    lemma_curve_comp_bound(d.z, dt, den);
}

/// One component of the interpolation term is at most five keyframe deltas.
proof fn lemma_curve_comp_bound(d: int, dt: int, den: int)
    requires
        s_abs(d) <= 2 * POS_LIMIT as int,
        1 <= den <= 0x200000000,
        s_abs(dt) <= 5 * den,
    ensures
        s_abs(fmul(d, dt)) <= 0x10000000000000,
        fits_i64(fmul(d, dt)),
        s_abs(fdiv(fmul(d, dt), den)) <= 5 * 0x8000000,
{
    lemma_fmul_abs(d, dt, 0x8000000, s_abs(dt));
    let p = fmul(d, dt);
    assert(0x8000000 * s_abs(dt) == 65536 * (2048 * s_abs(dt)));
    lemma_div_multiples_vanish(2048 * s_abs(dt), 65536);
    assert(s_abs(p) <= 2048 * s_abs(dt));
    assert(s_abs(p) <= 10240 * den);
    assert(s_abs(p * SCALE) == s_abs(p) * 65536);
    lemma_mul_inequality(s_abs(p), 10240 * den, 65536);
    assert((10240 * den) * 65536 == 671088640 * den) by (nonlinear_arith);
    lemma_tdiv_abs(p * SCALE, den, 671088640 * den);
    lemma_div_multiples_vanish(671088640, den);
    assert(s_abs(fdiv(p, den)) <= 671088640);
}

/// An axis-aligned minimum bounding box.
#[derive(Clone, Copy, PartialEq, Eq, Structural, Debug)]
pub struct Aabb {
    pub min: Vec3,
    pub max: Vec3,
}

/// The mathematical model of an `Aabb`.
pub ghost struct AabbV {
    pub min: V3,
    pub max: V3,
}

impl View for Aabb {
    type V = AabbV;

    open spec fn view(&self) -> AabbV {
        AabbV { min: self.min@, max: self.max@ }
    }
}

pub open spec fn imin(a: int, b: int) -> int {
    if a < b {
        a
    } else {
        b
    }
}

pub open spec fn imax(a: int, b: int) -> int {
    if a > b {
        a
    } else {
        b
    }
}

/// The smallest box holding both boxes.
pub open spec fn aabb_merge(a: AabbV, b: AabbV) -> AabbV {
    AabbV {
        min: V3 { x: imin(a.min.x, b.min.x), y: imin(a.min.y, b.min.y), z: imin(a.min.z, b.min.z) },
        max: V3 { x: imax(a.max.x, b.max.x), y: imax(a.max.y, b.max.y), z: imax(a.max.z, b.max.z) },
    }
}

/// One axis of the slab test: the distance interval in which the ray is
/// between the two planes, intersected with the interval so far.  An axis
/// the ray runs parallel to constrains nothing if the origin lies between
/// the planes and excludes everything otherwise.
pub open spec fn clip_axis(bmin: int, bmax: int, o: int, d: int, lo: int, hi: int) -> (
    int,
    int,
    bool,
) {
    if d == 0 {
        (lo, hi, bmin <= o <= bmax)
    } else {
        let ta = fdiv(bmin - o, d);
        let tb = fdiv(bmax - o, d);
        let t0 = if d < 0 {
            tb
        } else {
            ta
        };
        let t1 = if d < 0 {
            ta
        } else {
            tb
        };
        let nlo = imax(t0, lo);
        let nhi = imin(t1, hi);
        (nlo, nhi, nlo <= nhi)
    }
}

/// The slab test over the three axes in order.
pub open spec fn aabb_hit(bb: AabbV, r: RayV, tmin: int, tmax: int) -> bool {
    let cx = clip_axis(bb.min.x, bb.max.x, r.origin.x, r.direction.x, tmin, tmax);
    cx.2 && {
        let cy = clip_axis(bb.min.y, bb.max.y, r.origin.y, r.direction.y, cx.0, cx.1);
        cy.2 && {
            let cz = clip_axis(bb.min.z, bb.max.z, r.origin.z, r.direction.z, cy.0, cy.1);
            cz.2
        }
    }
}

impl Aabb {
    /// Whether the ray passes through the box within the distance window.
    pub fn hit(self, ray: Ray, min_distance: i64, max_distance: i64) -> (r: bool)
        requires
            in_range(self.min@, CENTER_LIMIT as int),
            in_range(self.max@, CENTER_LIMIT as int),
            in_range(ray.origin@, CENTER_LIMIT as int),
        ensures
            r == aabb_hit(self@, ray@, min_distance as int, max_distance as int),
    {
        let (lo1, hi1, ok1) = Self::clip(self.min.0, self.max.0, ray.origin.0, ray.direction.0, min_distance, max_distance);
        if !ok1 {
            return false;
        }
        let (lo2, hi2, ok2) = Self::clip(self.min.1, self.max.1, ray.origin.1, ray.direction.1, lo1, hi1);
        if !ok2 {
            return false;
        }
        let (_, _, ok3) = Self::clip(self.min.2, self.max.2, ray.origin.2, ray.direction.2, lo2, hi2);
        ok3
    }

    /// The smallest box holding both boxes.
    pub fn merge(self, aabb: Aabb) -> (r: Aabb)
        ensures
            r@ == aabb_merge(self@, aabb@),
    {
        let minx = if self.min.0 < aabb.min.0 { self.min.0 } else { aabb.min.0 };
        let miny = if self.min.1 < aabb.min.1 { self.min.1 } else { aabb.min.1 };
        let minz = if self.min.2 < aabb.min.2 { self.min.2 } else { aabb.min.2 };
        let maxx = if self.max.0 > aabb.max.0 { self.max.0 } else { aabb.max.0 };
        let maxy = if self.max.1 > aabb.max.1 { self.max.1 } else { aabb.max.1 };
        let maxz = if self.max.2 > aabb.max.2 { self.max.2 } else { aabb.max.2 };
        Aabb { min: Vec3(minx, miny, minz), max: Vec3(maxx, maxy, maxz) }
    }

    /// One axis of the slab test.
    fn clip(bmin: i64, bmax: i64, o: i64, d: i64, lo: i64, hi: i64) -> (r: (i64, i64, bool))
        requires
            s_abs(bmin as int) <= CENTER_LIMIT as int,
            s_abs(bmax as int) <= CENTER_LIMIT as int,
            s_abs(o as int) <= CENTER_LIMIT as int,
        ensures
            (r.0 as int, r.1 as int, r.2) == clip_axis(
                bmin as int,
                bmax as int,
                o as int,
                d as int,
                lo as int,
                hi as int,
            ),
    {
        if d == 0 {
            (lo, hi, bmin <= o && o <= bmax)
        } else {
            proof {
                lemma_clip_div_fits(bmin as int, bmax as int, o as int, d as int);
            }
            let ta = fx_div(bmin - o, d);
            let tb = fx_div(bmax - o, d);
            let t0 = if d < 0 {
                tb
            } else {
                ta
            };
            let t1 = if d < 0 {
                ta
            } else {
                tb
            };
            let nlo = if t0 > lo {
                t0
            } else {
                lo
            };
            let nhi = if t1 < hi {
                t1
            } else {
                hi
            };
            (nlo, nhi, nlo <= nhi)
        }
    }
}

/// Quotients of the slab test fit in an `i64`.
proof fn lemma_clip_div_fits(bmin: int, bmax: int, o: int, d: int)
    requires
        s_abs(bmin) <= CENTER_LIMIT as int,
        s_abs(bmax) <= CENTER_LIMIT as int,
        s_abs(o) <= CENTER_LIMIT as int,
        d != 0,
    ensures
        fits_i64(fdiv(bmin - o, d)),
        fits_i64(fdiv(bmax - o, d)),
{
    if d > 0 {
        lemma_fdiv_abs(bmin - o, d, 2 * CENTER_LIMIT as int, 1);
        lemma_fdiv_abs(bmax - o, d, 2 * CENTER_LIMIT as int, 1);
    } else {
        lemma_fdiv_neg(bmin - o, d);
        lemma_fdiv_neg(bmax - o, d);
        lemma_fdiv_abs(-(bmin - o), -d, 2 * CENTER_LIMIT as int, 1);
        lemma_fdiv_abs(-(bmax - o), -d, 2 * CENTER_LIMIT as int, 1);
    }
}

} // verus!
