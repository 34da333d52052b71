//! Fixed-point scalar arithmetic.
//!
//! A scalar is an `i64` holding `value * SCALE`: one world unit is `SCALE`
//! steps.  Products and quotients are computed in `i128` and rounded toward
//! zero, exactly as the spec functions `fmul` and `fdiv` state.

use vstd::prelude::*;
use vstd::arithmetic::div_mod::{
    lemma_div_is_ordered, lemma_div_is_ordered_by_denominator, lemma_div_pos_is_pos,
    lemma_div_multiples_vanish, lemma_div_nonincreasing,
};
use vstd::arithmetic::mul::lemma_mul_inequality;

verus! {

/// Fixed-point steps per world unit.
pub const SCALE: i64 = 65536;

/// Magnitude of a mathematical integer.
pub open spec fn s_abs(a: int) -> int {
    if a >= 0 {
        a
    } else {
        -a
    }
}

/// Division rounded toward zero, the rounding of hardware division.
pub open spec fn tdiv(a: int, b: int) -> int
    recommends
        b != 0,
{
    if (a >= 0) == (b > 0) {
        s_abs(a) / s_abs(b)
    } else {
        -(s_abs(a) / s_abs(b))
    }
}

/// Fixed-point product: `(a * b) / SCALE`, rounded toward zero.
pub open spec fn fmul(a: int, b: int) -> int {
    tdiv(a * b, SCALE as int)
}

/// Fixed-point quotient: `(a * SCALE) / b`, rounded toward zero.
pub open spec fn fdiv(a: int, b: int) -> int
    recommends
        b != 0,
{
    tdiv(a * SCALE, b)
}

pub open spec fn fits_i64(a: int) -> bool {
    i64::MIN <= a <= i64::MAX
}

/// `x` clamped into `[lo, hi]`.
pub open spec fn clamped(x: int, lo: int, hi: int) -> int {
    if x < lo {
        lo
    } else if x > hi {
        hi
    } else {
        x
    }
}

/// Integer square root, defined by counting up; `lemma_isqrt_bracket` gives
/// its characteristic property.
pub open spec fn isqrt_spec(n: int) -> int
    decreases n,
{
    if n <= 0 {
        0
    } else {
        let r = isqrt_spec(n - 1);
        if (r + 1) * (r + 1) <= n {
            r + 1
        } else {
            r
        }
    }
}

/// Fixed-point square root: `isqrt(x * SCALE)` is the fixed-point value
/// closest from below to `sqrt(x / SCALE)` in world units.
pub open spec fn fsqrt(x: int) -> int {
    isqrt_spec(x * SCALE)
}

pub proof fn lemma_isqrt_bracket(n: int)
    requires
        n >= 0,
    ensures
        isqrt_spec(n) >= 0,
        isqrt_spec(n) * isqrt_spec(n) <= n,
        n < (isqrt_spec(n) + 1) * (isqrt_spec(n) + 1),
    decreases n,
{
    if n == 0 {
    } else {
        lemma_isqrt_bracket(n - 1);
        let r = isqrt_spec(n - 1);
        if (r + 1) * (r + 1) <= n {
            assert(n <= (r + 1) * (r + 1));
            assert((r + 2) * (r + 2) > (r + 1) * (r + 1)) by (nonlinear_arith)
                requires
                    r >= 0,
            ;
        }
    }
}

pub proof fn lemma_isqrt_unique(n: int, r: int)
    requires
        n >= 0,
        r >= 0,
        r * r <= n,
        n < (r + 1) * (r + 1),
    ensures
        r == isqrt_spec(n),
{
    lemma_isqrt_bracket(n);
    let q = isqrt_spec(n);
    assert(!(r < q)) by {
        if r < q {
            assert(q * q > n) by (nonlinear_arith)
                requires
                    r >= 0,
                    r < q,
                    n < (r + 1) * (r + 1),
            ;
        }
    }
    assert(!(q < r)) by {
        if q < r {
            assert(r * r > n) by (nonlinear_arith)
                requires
                    q >= 0,
                    q < r,
                    n < (q + 1) * (q + 1),
            ;
        }
    }
}

/// Monotonicity of the square root.
pub proof fn lemma_isqrt_ordered(m: int, n: int)
    requires
        0 <= m <= n,
    ensures
        isqrt_spec(m) <= isqrt_spec(n),
{
    lemma_isqrt_bracket(m);
    lemma_isqrt_bracket(n);
    let p = isqrt_spec(m);
    let q = isqrt_spec(n);
    if q < p {
        assert((q + 1) * (q + 1) <= p * p) by (nonlinear_arith)
            requires
                q >= 0,
                q < p,
        ;
    }
}

/// A magnitude bound on a product.
pub proof fn lemma_abs_mul(a: int, b: int, ba: int, bb: int)
    requires
        s_abs(a) <= ba,
        s_abs(b) <= bb,
    ensures
        s_abs(a * b) <= ba * bb,
{
    assert(s_abs(a * b) <= ba * bb) by (nonlinear_arith)
        requires
            s_abs(a) <= ba,
            s_abs(b) <= bb,
    ;
}

/// A magnitude bound on a truncated quotient.
pub proof fn lemma_tdiv_abs(a: int, b: int, c: int)
    requires
        b > 0,
        s_abs(a) <= c,
    ensures
        s_abs(tdiv(a, b)) <= c / b,
        s_abs(tdiv(a, b)) <= c,
{
    lemma_div_is_ordered(s_abs(a), c, b);
    lemma_div_pos_is_pos(s_abs(a), b);
    lemma_div_is_ordered_by_denominator(c, 1, b);
}

/// A magnitude bound on a fixed-point product.
pub proof fn lemma_fmul_abs(a: int, b: int, ba: int, bb: int)
    requires
        s_abs(a) <= ba,
        s_abs(b) <= bb,
    ensures
        s_abs(fmul(a, b)) <= (ba * bb) / (SCALE as int),
        s_abs(fmul(a, b)) <= ba * bb,
{
    lemma_abs_mul(a, b, ba, bb);
    lemma_tdiv_abs(a * b, SCALE as int, ba * bb);
}

/// A magnitude bound on a fixed-point quotient, from a divisor lower bound.
pub proof fn lemma_fdiv_abs(a: int, b: int, ba: int, bmin: int)
    requires
        s_abs(a) <= ba,
        1 <= bmin <= b,
    ensures
        s_abs(fdiv(a, b)) <= (ba * SCALE) / bmin,
{
    lemma_abs_mul(a, SCALE as int, ba, SCALE as int);
    lemma_div_is_ordered(s_abs(a * SCALE), ba * SCALE, b);
    lemma_div_pos_is_pos(s_abs(a * SCALE), b);
    if bmin < b {
        lemma_div_is_ordered_by_denominator(ba * SCALE, bmin, b);
    }
}

/// Negating both operands keeps a truncated quotient.
pub proof fn lemma_tdiv_neg(a: int, b: int)
    requires
        b != 0,
    ensures
        tdiv(a, b) == tdiv(-a, -b),
{
    assert(s_abs(-a) == s_abs(a));
    assert(s_abs(-b) == s_abs(b));
}

/// Negating the dividend negates a truncated quotient.
pub proof fn lemma_tdiv_neg_num(a: int, b: int)
    requires
        b != 0,
    ensures
        tdiv(-a, b) == -tdiv(a, b),
{
    assert(s_abs(-a) == s_abs(a));
}

/// A fixed-point product with zero is zero.
pub proof fn lemma_fmul_zero(a: int)
    ensures
        fmul(a, 0) == 0,
        fmul(0, a) == 0,
{
    assert(a * 0 == 0) by (nonlinear_arith);
    assert(0 * a == 0) by (nonlinear_arith);
}

/// Negating one factor negates a fixed-point product.
pub proof fn lemma_fmul_neg(a: int, b: int)
    ensures
        fmul(a, -b) == -fmul(a, b),
        fmul(-a, b) == -fmul(a, b),
{
    assert(a * (-b) == -(a * b)) by (nonlinear_arith);
    assert((-a) * b == -(a * b)) by (nonlinear_arith);
    lemma_tdiv_neg_num(a * b, SCALE as int);
}

/// Negating both operands keeps a fixed-point quotient.
pub proof fn lemma_fdiv_neg(a: int, b: int)
    requires
        b != 0,
    ensures
        fdiv(a, b) == fdiv(-a, -b),
{
    assert((-a) * SCALE == -(a * SCALE));
    lemma_tdiv_neg(a * SCALE, b);
}

/// Multiplying by a whole multiple of SCALE is exact.
pub proof fn lemma_fmul_scale(a: int)
    ensures
        fmul(a, SCALE as int) == a,
        fmul(SCALE as int, a) == a,
{
    if a >= 0 {
        lemma_div_multiples_vanish(a, SCALE as int);
        assert(a * SCALE == SCALE * a);
    } else {
        lemma_div_multiples_vanish(-a, SCALE as int);
        assert(s_abs(a * SCALE) == (-a) * SCALE);
        assert(s_abs(SCALE * a) == (-a) * SCALE);
    }
}

/// A fixed-point product of values in `[0, bound]` with `bound <= SCALE`
/// stays in `[0, bound]`.
pub proof fn lemma_fmul_unit_interval(a: int, b: int)
    requires
        0 <= a <= SCALE as int,
        0 <= b <= SCALE as int,
    ensures
        0 <= fmul(a, b),
        fmul(a, b) <= a,
        fmul(a, b) <= b,
{
    assert(a * b >= 0) by (nonlinear_arith)
        requires
            a >= 0,
            b >= 0,
    ;
    lemma_div_pos_is_pos(a * b, SCALE as int);
    lemma_mul_inequality(b, SCALE as int, a);
    assert(a * SCALE == SCALE * a) by (nonlinear_arith);
    assert(a * b == b * a) by (nonlinear_arith);
    lemma_div_is_ordered(a * b, a * SCALE, SCALE as int);
    lemma_div_multiples_vanish(a, SCALE as int);
    lemma_mul_inequality(a, SCALE as int, b);
    assert(b * SCALE == SCALE * b) by (nonlinear_arith);
    lemma_div_is_ordered(a * b, b * SCALE, SCALE as int);
    lemma_div_multiples_vanish(b, SCALE as int);
}

/// Division of an `i128` by a positive divisor, rounded toward zero.
fn tdiv_i128(a: i128, d: i128) -> (r: i128)
    requires
        d > 0,
        a > i128::MIN,
    ensures
        r == tdiv(a as int, d as int),
{
    if a >= 0 {
        let m: u128 = (a as u128) / (d as u128);
        proof {
            lemma_div_nonincreasing(a as int, d as int);
            lemma_div_pos_is_pos(a as int, d as int);
        }
        m as i128
    } else {
        let m: u128 = ((-a) as u128) / (d as u128);
        proof {
            lemma_div_nonincreasing((-a) as int, d as int);
            lemma_div_pos_is_pos((-a) as int, d as int);
        }
        -(m as i128)
    }
}

/// Fixed-point multiplication.
pub fn fx_mul(a: i64, b: i64) -> (r: i64)
    requires
        fits_i64(fmul(a as int, b as int)),
    ensures
        r == fmul(a as int, b as int),
{
    proof {
        assert((a as int) * (b as int) < i128::MAX && (a as int) * (b as int) > i128::MIN)
            by (nonlinear_arith)
            requires
                i64::MIN <= a <= i64::MAX,
                i64::MIN <= b <= i64::MAX,
        ;
    }
    let p: i128 = (a as i128) * (b as i128);
    let q: i128 = tdiv_i128(p, 65536);
    q as i64
}

/// Fixed-point division.
pub fn fx_div(a: i64, b: i64) -> (r: i64)
    requires
        b != 0,
        fits_i64(fdiv(a as int, b as int)),
    ensures
        r == fdiv(a as int, b as int),
{
    let p: i128 = (a as i128) * 65536;
    let q: i128 = if b > 0 {
        tdiv_i128(p, b as i128)
    } else {
        tdiv_i128(-p, -(b as i128))
    };
    proof {
        assert(tdiv(-(p as int), -(b as int)) == tdiv(p as int, b as int));
    }
    q as i64
}

/// Fixed-point square root.
pub fn fx_sqrt(x: i64) -> (r: i64)
    requires
        x >= 0,
    ensures
        r == fsqrt(x as int),
        r >= 0,
{
    let n: u128 = (x as u128) * 65536;
    let r: u128 = isqrt_u128(n);
    proof {
        lemma_isqrt_bracket(n as int);
        assert(isqrt_spec(n as int) * isqrt_spec(n as int) <= n as int);
        assert(r < 0x10000000000) by {
            if r >= 0x10000000000 {
                assert(r * r >= 0x10000000000 * 0x10000000000) by (nonlinear_arith)
                    requires
                        r >= 0x10000000000,
                ;
            }
        }
    }
    r as i64
}

/// Integer square root of a `u128` below 2^80.
pub fn isqrt_u128(n: u128) -> (r: u128)
    requires
        n < 0x100000000000000000000,
    ensures
        r == isqrt_spec(n as int),
        r * r <= n,
        n < (r + 1) * (r + 1),
{
    let mut lo: u128 = 0;
    let mut hi: u128 = 0x10000000000;
    proof {
        assert(0x10000000000 * 0x10000000000 == 0x100000000000000000000int) by (nonlinear_arith);
    }
    while lo + 1 < hi
        invariant
            lo * lo <= n,
            n < hi * hi,
            lo < hi,
            hi <= 0x10000000000,
            n < 0x100000000000000000000,
        decreases hi - lo,
    {
        let mid: u128 = lo + (hi - lo) / 2;
        proof {
            assert(mid * mid <= 0x10000000000 * 0x10000000000) by (nonlinear_arith)
                requires
                    0 <= mid <= 0x10000000000,
            ;
            assert(0x10000000000 * 0x10000000000 == 0x100000000000000000000int) by (nonlinear_arith);
        }
        if mid * mid <= n {
            lo = mid;
        } else {
            hi = mid;
        }
    }
    proof {
        lemma_isqrt_unique(n as int, lo as int);
    }
    lo
}

/// `x` clamped into `[lo, hi]`.
pub fn clamp_i64(x: i64, lo: i64, hi: i64) -> (r: i64)
    requires
        lo <= hi,
    ensures
        r == clamped(x as int, lo as int, hi as int),
{
    if x < lo {
        lo
    } else if x > hi {
        hi
    } else {
        x
    }
}

} // verus!
