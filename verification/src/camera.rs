//! The camera: from user parameters to world-space rays.
//!
//! Construction is pure arithmetic over the caller-supplied trigonometric
//! values (the tangent of half the field of view and the sine and cosine of
//! the roll angle, as fixed-point scalars), mirrored exactly by
//! `camera_make`.  Ray generation samples the lens disk and the shutter
//! interval; for every value of those draws the ray is the stated function
//! `cam_ray_for` of them.

use vstd::prelude::*;
use crate::fixed::{SCALE, s_abs, fdiv, fits_i64, fx_div, lemma_fdiv_abs};
use vstd::arithmetic::div_mod::lemma_div_pos_is_pos;
use crate::math::{
    Vec3, V3, Ray, RayV, in_range, in_range_check, in_ball, v3_add, v3_sub, v3_scale, v3_cross,
    v3_dot, v3_unit, v3_len, lemma_dot_fits, lemma_cross_fits, lemma_scale_fits,
    lemma_fmul_self_nonneg, lemma_len_lower, POS_LIMIT, TIME_LIMIT,
};
use crate::object::ray_wf;
use crate::rng::RandomSource;

verus! {

/// The world's up direction, one unit along the y axis.
pub open spec fn up_v() -> V3 {
    V3 { x: 0, y: SCALE as int, z: 0 }
}

/// Halving a vector, component by component.
pub open spec fn v3_half(v: V3) -> V3 {
    V3 { x: fdiv(v.x, 2 * SCALE), y: fdiv(v.y, 2 * SCALE), z: fdiv(v.z, 2 * SCALE) }
}

/// The mathematical model of a `Camera`.
pub ghost struct CameraV {
    pub origin: V3,
    pub upper_left: V3,
    pub horizontal_unit: V3,
    pub horizontal: V3,
    pub vertical_unit: V3,
    pub vertical: V3,
    pub lens_radius: int,
    pub time0: int,
    pub time1: int,
}

/// An immutable per-render camera configuration.
#[derive(Clone, Copy)]
pub struct Camera {
    origin: Vec3,
    upper_left: Vec3,
    horizontal_unit: Vec3,
    horizontal: Vec3,
    vertical_unit: Vec3,
    vertical: Vec3,
    lens_radius: i64,
    time0: i64,
    time1: i64,
}

impl View for Camera {
    type V = CameraV;

    closed spec fn view(&self) -> CameraV {
        CameraV {
            origin: self.origin@,
            upper_left: self.upper_left@,
            horizontal_unit: self.horizontal_unit@,
            horizontal: self.horizontal@,
            vertical_unit: self.vertical_unit@,
            vertical: self.vertical@,
            lens_radius: self.lens_radius as int,
            time0: self.time0 as int,
            time1: self.time1 as int,
        }
    }
}

/// The bounds a constructed camera obeys, used by `ray`.
pub open spec fn camera_wf(c: CameraV) -> bool {
    in_range(c.origin, POS_LIMIT as int) && in_range(c.horizontal_unit, 0x120000) && in_range(
        c.vertical_unit,
        0x4000000,
    ) && in_range(c.horizontal, 0x1000000000) && in_range(c.vertical, 0x200000000000) && in_range(
        c.upper_left,
        0x400000000000,
    ) && 0 <= c.lens_radius <= 0x80000 && s_abs(c.time0) <= TIME_LIMIT as int && s_abs(c.time1)
        <= TIME_LIMIT as int && c.time0 <= c.time1
}

/// The derivation of the camera basis from its parameters, exactly as the
/// constructor computes it.
pub open spec fn camera_make(
    origin: V3,
    target: V3,
    aspect: int,
    tan_half_fov: int,
    rot_sin: int,
    rot_cos: int,
    aperture: int,
    focal_length: int,
    time0: int,
    time1: int,
) -> CameraV {
    let direction = v3_unit(v3_sub(target, origin));
    let width = 2 * tan_half_fov;
    let height = fdiv(width, aspect);
    let cu = v3_unit(v3_cross(direction, up_v()));
    let horizontal_unit = v3_sub(v3_scale(cu, rot_cos), v3_scale(up_v(), rot_sin));
    let vertical_unit = v3_cross(direction, horizontal_unit);
    let horizontal = v3_scale(v3_scale(horizontal_unit, width), focal_length);
    let vertical = v3_scale(v3_scale(vertical_unit, height), focal_length);
    let upper_left = v3_sub(
        v3_sub(v3_scale(direction, focal_length), v3_half(horizontal)),
        v3_half(vertical),
    );
    CameraV {
        origin,
        upper_left,
        horizontal_unit,
        horizontal,
        vertical_unit,
        vertical,
        lens_radius: fdiv(aperture, 2 * SCALE),
        time0,
        time1,
    }
}

/// The ray cast for viewport coordinates `(u, v)`, a lens-disk sample `w`
/// and a shutter time `tm`.  A lens offset that would push the origin out of
/// bounds is dropped, and a viewport direction too degenerate to normalize
/// falls back to the forward axis.
pub open spec fn cam_ray_for(c: CameraV, u: int, v: int, w: V3, tm: int) -> RayV {
    let lens = v3_scale(w, c.lens_radius);
    let offset = v3_add(v3_scale(c.horizontal_unit, lens.x), v3_scale(c.vertical_unit, lens.y));
    let shifted = v3_add(c.origin, offset);
    let origin = if in_range(shifted, POS_LIMIT as int) {
        shifted
    } else {
        c.origin
    };
    let toward = v3_sub(
        v3_add(v3_add(c.upper_left, v3_scale(c.horizontal, u)), v3_scale(c.vertical, v)),
        offset,
    );
    let direction = if in_range(toward, 0x8000000) && v3_dot(toward, toward) >= 256 {
        v3_unit(toward)
    } else {
        V3 { x: 0, y: 0, z: -(SCALE as int) }
    };
    RayV { origin, direction, time: tm }
}

impl Camera {
    /// Builds a camera at `origin` looking at `target`.
    ///
    /// `aspect` is the viewport's width over its height; `tan_half_fov` is
    /// the tangent of half the horizontal field of view; `rot_sin` and
    /// `rot_cos` are the sine and cosine of the clockwise roll angle;
    /// `aperture` is the lens diameter and `focal_length` the distance at
    /// which objects are in focus; the shutter is open from `time0` to
    /// `time1`.  All are fixed-point scalars; the trigonometric values are
    /// the caller's, since the library computes no transcendentals.  The
    /// target must be far enough from the origin, and the view direction
    /// far enough from straight up, for the two normalizations to be
    /// meaningful; both are preconditions, as degenerate bases are the
    /// caller's to avoid.
    pub fn new(
        origin: Vec3,
        target: Vec3,
        aspect: i64,
        tan_half_fov: i64,
        rot_sin: i64,
        rot_cos: i64,
        aperture: i64,
        focal_length: i64,
        time0: i64,
        time1: i64,
    ) -> (r: Camera)
        requires
            in_range(origin@, POS_LIMIT as int),
            in_range(target@, POS_LIMIT as int),
            v3_len(v3_sub(target@, origin@)) >= 4096,
            v3_len(v3_cross(v3_unit(v3_sub(target@, origin@)), up_v())) >= 4096,
            4096 <= aspect <= 0x100000,
            1 <= tan_half_fov <= 0x400000,
            s_abs(rot_sin as int) <= SCALE as int,
            s_abs(rot_cos as int) <= SCALE as int,
            0 <= aperture <= 0x100000,
            1 <= focal_length <= 0x1000000,
            s_abs(time0 as int) <= TIME_LIMIT as int,
            s_abs(time1 as int) <= TIME_LIMIT as int,
            time0 <= time1,
        ensures
            r@ == camera_make(
                origin@,
                target@,
                aspect as int,
                tan_half_fov as int,
                rot_sin as int,
                rot_cos as int,
                aperture as int,
                focal_length as int,
                time0 as int,
                time1 as int,
            ),
            camera_wf(r@),
    {
        let aim = target.minus(origin);
        let direction = aim.unit();
        let width = 2 * tan_half_fov;
        proof {
            lemma_width_height_fits(width as int, aspect as int);
        }
        let height = fx_div(width, aspect);
        let up = Vec3(0, 65536, 0);
        proof {
            lemma_cross_fits(direction@, up@, 0x110000, 0x10000);
        }
        let cu = direction.cross(up).unit();
        proof {
            lemma_scale_fits(cu@, rot_cos as int, 0x110000, SCALE as int);
            lemma_scale_fits(up@, rot_sin as int, 0x10000, SCALE as int);
        }
        let horizontal_unit = cu.scale(rot_cos).minus(up.scale(rot_sin));
        proof {
            lemma_cross_fits(direction@, horizontal_unit@, 0x110000, 0x120000);
        }
        let vertical_unit = direction.cross(horizontal_unit);
        proof {
            lemma_scale_fits(horizontal_unit@, width as int, 0x120000, 0x800000);
            lemma_scale_fits(
                v3_scale(horizontal_unit@, width as int),
                focal_length as int,
                0x9000000,
                0x1000000,
            );
            lemma_scale_fits(vertical_unit@, height as int, 0x2640000, 0x8000000);
            lemma_scale_fits(
                v3_scale(vertical_unit@, height as int),
                focal_length as int,
                0x1320000000,
                0x1000000,
            );
            lemma_scale_fits(direction@, focal_length as int, 0x110000, 0x1000000);
        }
        let horizontal = horizontal_unit.scale(width).scale(focal_length);
        let vertical = vertical_unit.scale(height).scale(focal_length);
        proof {
            lemma_half_fits(horizontal@, 0x900000000);
            lemma_half_fits(vertical@, 0x132000000000);
            lemma_fdiv_abs(aperture as int, 131072, 0x100000, 131072);
            lemma_div_pos_is_pos(aperture * SCALE, 131072);
        }
        let upper_left = direction.scale(focal_length).minus(horizontal.div_s(131072)).minus(
            vertical.div_s(131072),
        );
        Camera {
            origin,
            upper_left,
            horizontal_unit,
            horizontal,
            vertical_unit,
            vertical,
            lens_radius: fx_div(aperture, 131072),
            time0,
            time1,
        }
    }

    /// Casts the ray through viewport coordinates `(u, v)` in `[0, 1)`,
    /// jittered over the lens disk for depth of field and over the shutter
    /// interval for motion blur.
    pub fn ray(&self, u: i64, v: i64, source: &mut RandomSource) -> (r: Ray)
        requires
            camera_wf(self@),
            0 <= u < SCALE,
            0 <= v < SCALE,
        ensures
            ray_wf(r@),
            self@.time0 <= r@.time <= self@.time1,
            self@.time0 == self@.time1 ==> r@.time == self@.time0,
            self@.time0 < self@.time1 ==> r@.time < self@.time1,
            exists|w: V3|
                #[trigger] in_ball(w) && w.z == 0 && r@ == cam_ray_for(
                    self@,
                    u as int,
                    v as int,
                    w,
                    r@.time,
                ),
    {
        let w = Vec3::random_in_unit_disk(source);
        proof {
            lemma_scale_fits(w@, self@.lens_radius, 0x10000, 0x80000);
        }
        let lens = w.scale(self.lens_radius);
        proof {
            lemma_scale_fits(self@.horizontal_unit, lens@.x, 0x120000, 0x80000);
            lemma_scale_fits(self@.vertical_unit, lens@.y, 0x4000000, 0x80000);
        }
        let offset = self.horizontal_unit.scale(lens.0).plus(self.vertical_unit.scale(lens.1));
        let shifted = self.origin.plus(offset);
        let origin = if in_range_check(shifted, 0x4000000) {
            shifted
        } else {
            self.origin
        };
        proof {
            lemma_scale_fits(self@.horizontal, u as int, 0x1000000000, SCALE as int);
            lemma_scale_fits(self@.vertical, v as int, 0x200000000000, SCALE as int);
        }
        let toward = self.upper_left.plus(self.horizontal.scale(u)).plus(
            self.vertical.scale(v),
        ).minus(offset);
        let direction = if in_range_check(toward, 0x8000000) {
            proof {
                lemma_dot_fits(toward@, toward@, 0x8000000, 0x8000000);
                lemma_fmul_self_nonneg(toward@.x);
                lemma_fmul_self_nonneg(toward@.y);
                lemma_fmul_self_nonneg(toward@.z);
            }
            let d = toward.dot(toward);
            if d >= 256 {
                proof {
                    lemma_len_lower(toward@);
                }
                toward.unit()
            } else {
                Vec3(0, 0, -65536)
            }
        } else {
            Vec3(0, 0, -65536)
        };
        let time = if self.time0 == self.time1 {
            self.time0
        } else {
            source.next_range(self.time0, self.time1)
        };
        let r = Ray { origin, direction, time };
        proof {
            assert(in_ball(w@) && w@.z == 0 && r@ == cam_ray_for(
                self@,
                u as int,
                v as int,
                w@,
                r@.time,
            ));
        }
        r
    }
}

/// Halving a bounded vector fits and keeps the bound.
proof fn lemma_half_fits(v: V3, b: int)
    requires
        in_range(v, b),
        0 <= b <= 0x7fffffffffffffff,
    ensures
        in_range(v3_half(v), b),
        fits_i64(v3_half(v).x),
        fits_i64(v3_half(v).y),
        fits_i64(v3_half(v).z),
        v3_half(v) == (V3 {
            x: fdiv(v.x, 131072),
            y: fdiv(v.y, 131072),
            z: fdiv(v.z, 131072),
        }),
{
    lemma_fdiv_abs(v.x, 2 * SCALE as int, b, 131072);
    lemma_fdiv_abs(v.y, 2 * SCALE as int, b, 131072);
    lemma_fdiv_abs(v.z, 2 * SCALE as int, b, 131072);
    assert((b * SCALE) / 131072 <= b) by {
        vstd::arithmetic::div_mod::lemma_div_is_ordered(b * SCALE, b * 131072, 131072);
        vstd::arithmetic::div_mod::lemma_div_multiples_vanish(b, 131072);
        assert(b * SCALE <= b * 131072) by (nonlinear_arith)
            requires
                b >= 0,
        ;
        assert(b * 131072 == 131072 * b) by (nonlinear_arith);
    }
}

/// The viewport height quotient fits.
proof fn lemma_width_height_fits(width: int, aspect: int)
    requires
        0 <= width <= 0x800000,
        4096 <= aspect,
    ensures
        fits_i64(fdiv(width, aspect)),
        0 <= fdiv(width, aspect) <= 0x8000000,
{
    crate::fixed::lemma_fdiv_abs(width, aspect, 0x800000, 4096);
    assert((0x800000 * SCALE) / 4096 == 0x8000000int);
    assert(fdiv(width, aspect) >= 0) by {
        vstd::arithmetic::div_mod::lemma_div_pos_is_pos(width * SCALE, aspect);
    }
}

} // verus!
