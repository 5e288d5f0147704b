//! Fixed-point scalar arithmetic: the numeric ground the geometry stands on.
//!
//! A scalar is an `i64` counting micro-units: the raw value `x` denotes the
//! real number `x / SCALE`. Addition and subtraction are exact; products and
//! quotients are rescaled with `tdiv`, division truncating toward zero; the
//! square root rounds down. Every executable routine here is proved to return
//! exactly the value of its specification function.

use vstd::arithmetic::div_mod::{
    lemma_div_is_ordered, lemma_div_multiples_vanish, lemma_div_nonincreasing,
    lemma_div_pos_is_pos,
};
use vstd::prelude::*;

verus! {

/// Raw steps per unit: all scalars are micro-units.
pub const SCALE: i64 = 1_000_000;

/// Largest magnitude, in raw steps, of a coordinate of a scene point,
/// a ray origin, a ray direction or a sphere radius (one thousand units).
pub const COORD_LIMIT: i64 = 1_000_000_000;

/// Largest magnitude, in raw steps, of a ray-parameter interval endpoint
/// (fifty units): the far plane of the shader.
pub const T_LIMIT: i64 = 50_000_000;

/// Bound, in raw steps, on each component of a surface normal stored in a
/// hit record; a consequence of `COORD_LIMIT` and `T_LIMIT` that callers
/// need to keep later color arithmetic inside `i64`.
pub const NORMAL_LIMIT: i64 = 60_000_000_000_000_000;

/// Largest magnitude accepted for either argument of `Vec3::dot` and
/// `Vec3::cross`, so that the intermediate sums of products fit.
pub const DOT_ARG_LIMIT: i64 = 1_500_000_000_000;

/// Largest magnitude accepted for the dividend of `fx_div`
/// (`i64::MAX / SCALE`), so that the rescaled quotient fits in an `i64`.
pub const DIV_ARG_LIMIT: i64 = 9_223_372_036_854;

/// Magnitude of an integer.
pub open spec fn iabs(a: int) -> int {
    if a < 0 {
        -a
    } else {
        a
    }
}

/// Division truncating toward zero, total (zero divisor gives zero).
/// This is the single rounding rule of the whole library.
pub open spec fn tdiv(a: int, b: int) -> int {
    if b == 0 {
        0
    } else if (a < 0) == (b < 0) {
        iabs(a) / iabs(b)
    } else {
        -(iabs(a) / iabs(b))
    }
}

/// Product of two fixed-point scalars, rescaled to micro-units.
pub open spec fn fmul(a: int, b: int) -> int {
    tdiv(a * b, SCALE as int)
}

/// Quotient of two fixed-point scalars, rescaled to micro-units.
pub open spec fn fdiv(a: int, b: int) -> int {
    tdiv(a * (SCALE as int), b)
}

/// The integer square root, rounded down. Meaningful for `n >= 0`.
pub open spec fn sqrt_floor(n: int) -> int {
    choose|r: int| 0 <= r && #[trigger] (r * r) <= n && n < (r + 1) * (r + 1)
}

/// The quotient's magnitude never exceeds the dividend's divided by the
/// divisor's: if `|a| <= m * |b|` then `|tdiv(a, b)| <= m`.
pub proof fn lemma_tdiv_abs_le(a: int, b: int, m: int)
    requires
        b != 0,
        0 <= m,
        iabs(a) <= m * iabs(b),
    ensures
        -m <= tdiv(a, b) <= m,
{
    let ua = iabs(a);
    let ub = iabs(b);
    let q = ua / ub;
    lemma_div_pos_is_pos(ua, ub);
    lemma_div_is_ordered(ua, m * ub, ub);
    lemma_div_multiples_vanish(m, ub);
    assert(m * ub == ub * m) by (nonlinear_arith);
    assert(q <= m);
}

/// Division is exact on multiples of the divisor.
pub proof fn lemma_tdiv_mul_exact(k: int, b: int)
    requires
        b >= 1,
    ensures
        tdiv(k * b, b) == k,
{
    if k >= 0 {
        assert(k * b >= 0 && k * b == b * k) by (nonlinear_arith)
            requires
                k >= 0,
                b >= 1,
        ;
        lemma_div_multiples_vanish(k, b);
        assert(iabs(k * b) / iabs(b) == (b * k) / b);
    } else {
        assert(k * b < 0 && -(k * b) == b * (-k)) by (nonlinear_arith)
            requires
                k < 0,
                b >= 1,
        ;
        lemma_div_multiples_vanish(-k, b);
        assert(iabs(k * b) / iabs(b) == (b * -k) / b);
        assert(tdiv(k * b, b) == -((b * -k) / b));
    }
}

/// Truncating division by a positive divisor is monotone in the dividend.
pub proof fn lemma_tdiv_monotone(a1: int, a2: int, b: int)
    requires
        a1 <= a2,
        b >= 1,
    ensures
        tdiv(a1, b) <= tdiv(a2, b),
{
    if a1 >= 0 {
        lemma_div_is_ordered(a1, a2, b);
    } else if a2 < 0 {
        lemma_div_is_ordered(-a2, -a1, b);
    } else {
        lemma_div_pos_is_pos(-a1, b);
        lemma_div_pos_is_pos(a2, b);
    }
}

/// The square root specification has exactly one fitting value.
pub proof fn lemma_sqrt_floor_is(n: int, r: int)
    requires
        0 <= r,
        r * r <= n,
        n < (r + 1) * (r + 1),
    ensures
        sqrt_floor(n) == r,
{
    assert(0 <= r && r * r <= n && n < (r + 1) * (r + 1));
    let x = sqrt_floor(n);
    assert(0 <= x && x * x <= n && n < (x + 1) * (x + 1));
    assert(x == r) by (nonlinear_arith)
        requires
            0 <= r,
            r * r <= n,
            n < (r + 1) * (r + 1),
            0 <= x,
            x * x <= n,
            n < (x + 1) * (x + 1),
    ;
}

/// Every nonnegative integer has an integer square root.
pub proof fn lemma_sqrt_exists(n: int)
    requires
        0 <= n,
    ensures
        exists|r: int| 0 <= r && #[trigger] (r * r) <= n && n < (r + 1) * (r + 1),
    decreases n,
{
    if n == 0 {
        let w: int = 0;
        assert(w * w == 0 && (w + 1) * (w + 1) == 1) by (nonlinear_arith)
            requires
                w == 0,
        ;
        assert(0 <= w && w * w <= n && n < (w + 1) * (w + 1));
    } else {
        lemma_sqrt_exists(n - 1);
        let p = choose|r: int| 0 <= r && #[trigger] (r * r) <= n - 1 && n - 1 < (r + 1) * (r + 1);
        if (p + 1) * (p + 1) <= n {
            assert(n < (p + 2) * (p + 2)) by (nonlinear_arith)
                requires
                    n <= (p + 1) * (p + 1),
                    0 <= p,
            ;
            assert(0 <= p + 1 && (p + 1) * (p + 1) <= n && n < ((p + 1) + 1) * ((p + 1) + 1));
        } else {
            assert(0 <= p && p * p <= n && n < (p + 1) * (p + 1));
        }
    }
}

/// For a nonnegative argument the square root specification holds of its
/// own value.
pub proof fn lemma_sqrt_floor_props(n: int)
    requires
        0 <= n,
    ensures
        0 <= sqrt_floor(n),
        sqrt_floor(n) * sqrt_floor(n) <= n,
        n < (sqrt_floor(n) + 1) * (sqrt_floor(n) + 1),
{
    lemma_sqrt_exists(n);
}

/// Truncating division on machine words, exactly `tdiv`.
pub fn tdiv_i128(a: i128, b: i128) -> (r: i128)
    requires
        b != 0,
        a > i128::MIN,
        b > i128::MIN,
    ensures
        r == tdiv(a as int, b as int),
        iabs(r as int) <= iabs(a as int),
{
    let ua: u128 = if a < 0 {
        (-a) as u128
    } else {
        a as u128
    };
    let ub: u128 = if b < 0 {
        (-b) as u128
    } else {
        b as u128
    };
    let q: u128 = ua / ub;
    proof {
        lemma_div_pos_is_pos(ua as int, ub as int);
        lemma_div_nonincreasing(ua as int, ub as int);
    }
    if (a < 0) == (b < 0) {
        q as i128
    } else {
        -(q as i128)
    }
}

/// The integer square root by bisection: the floor of the real root.
pub fn isqrt_u128(n: u128) -> (r: u128)
    requires
        n < 1329227995784915872903807060280344576,
    ensures
        r * r <= n < (r + 1) * (r + 1),
        r as int == sqrt_floor(n as int),
{
    let mut lo: u128 = 0;
    let mut hi: u128 = 1152921504606846976;
    proof {
        assert((hi as int) * (hi as int) > n as int) by (nonlinear_arith)
            requires
                hi == 1152921504606846976,
                n < 1329227995784915872903807060280344576,
        ;
    }
    while hi - lo > 1
        invariant
            lo < hi,
            hi <= 1152921504606846976,
            (lo as int) * (lo as int) <= n as int,
            (hi as int) * (hi as int) > n as int,
        decreases hi - lo,
    {
        let mid: u128 = lo + (hi - lo) / 2;
        proof {
            assert((mid as int) * (mid as int) < 1329227995784915872903807060280344577)
                by (nonlinear_arith)
                requires
                    mid <= 1152921504606846976,
            ;
        }
        if mid * mid <= n {
            lo = mid;
        } else {
            hi = mid;
        }
    }
    proof {
        lemma_sqrt_floor_is(n as int, lo as int);
    }
    lo
}

/// Fixed-point product: exactly `fmul` of the arguments.
pub fn fx_mul(a: i64, b: i64) -> (r: i64)
    requires
        -(i64::MAX as int) * (SCALE as int) <= (a as int) * (b as int),
        (a as int) * (b as int) <= (i64::MAX as int) * (SCALE as int),
    ensures
        r == fmul(a as int, b as int),
{
    let p: i128 = (a as i128) * (b as i128);
    let q: i128 = tdiv_i128(p, SCALE as i128);
    proof {
        lemma_tdiv_abs_le(p as int, SCALE as int, i64::MAX as int);
    }
    q as i64
}

/// Fixed-point quotient: exactly `fdiv` of the arguments.
pub fn fx_div(a: i64, b: i64) -> (r: i64)
    requires
        b != 0,
        -DIV_ARG_LIMIT <= a <= DIV_ARG_LIMIT,
    ensures
        r == fdiv(a as int, b as int),
{
    let p: i128 = (a as i128) * (SCALE as i128);
    proof {
        assert(p == (a as int) * 1_000_000);
    }
    let q: i128 = tdiv_i128(p, b as i128);
    proof {
        assert(iabs(p as int) <= (i64::MAX as int) * iabs(b as int)) by (nonlinear_arith)
            requires
                -DIV_ARG_LIMIT <= a <= DIV_ARG_LIMIT,
                p == (a as int) * (SCALE as int),
                b != 0,
                DIV_ARG_LIMIT == 9_223_372_036_854,
                SCALE == 1_000_000,
                iabs(b as int) >= 1,
        ;
        lemma_tdiv_abs_le(p as int, b as int, i64::MAX as int);
    }
    q as i64
}

} // verus!
