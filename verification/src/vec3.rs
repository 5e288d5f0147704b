//! Three-component vectors over fixed-point scalars.
//!
//! `Vec3` is the executable type; its mathematical view is `V3`, a triple of
//! unbounded integers still measured in raw micro-unit steps. Every
//! operation's contract says exactly which `V3` comes out, so the algebraic
//! laws at the bottom of this file transfer to the executable code.

use crate::fixed::{
    fdiv, fmul, fx_div, fx_mul, iabs, isqrt_u128, lemma_sqrt_floor_is, lemma_tdiv_abs_le,
    lemma_tdiv_mul_exact, sqrt_floor, tdiv, tdiv_i128, COORD_LIMIT, DIV_ARG_LIMIT, DOT_ARG_LIMIT,
    SCALE,
};
use vstd::arithmetic::div_mod::{lemma_div_pos_is_pos, lemma_fundamental_div_mod};
use vstd::prelude::*;

verus! {

/// The mathematical value of a `Vec3`: raw components without machine bounds.
pub ghost struct V3 {
    pub x: int,
    pub y: int,
    pub z: int,
}

/// A point, direction or color: three fixed-point components.
#[derive(Clone, Copy, Debug, PartialEq, Eq, Structural)]
pub struct Vec3 {
    pub x: i64,
    pub y: i64,
    pub z: i64,
}

impl View for Vec3 {
    type V = V3;

    open spec fn view(&self) -> V3 {
        V3 { x: self.x as int, y: self.y as int, z: self.z as int }
    }
}

/// All three components lie within `m` in magnitude.
pub open spec fn v3_in(v: V3, m: int) -> bool {
    -m <= v.x <= m && -m <= v.y <= m && -m <= v.z <= m
}

/// Component-wise sum; exact.
pub open spec fn v_add(a: V3, b: V3) -> V3 {
    V3 { x: a.x + b.x, y: a.y + b.y, z: a.z + b.z }
}

/// Component-wise difference; exact.
pub open spec fn v_sub(a: V3, b: V3) -> V3 {
    V3 { x: a.x - b.x, y: a.y - b.y, z: a.z - b.z }
}

/// Component-wise negation; exact.
pub open spec fn v_neg(a: V3) -> V3 {
    V3 { x: -a.x, y: -a.y, z: -a.z }
}

/// Scalar multiple, each component rescaled by one truncating division.
pub open spec fn v_scale(v: V3, t: int) -> V3 {
    V3 { x: fmul(v.x, t), y: fmul(v.y, t), z: fmul(v.z, t) }
}

/// Scalar quotient, each component rescaled by one truncating division.
pub open spec fn v_divs(v: V3, t: int) -> V3 {
    V3 { x: fdiv(v.x, t), y: fdiv(v.y, t), z: fdiv(v.z, t) }
}

/// Dot product: the exact sum of products, rescaled by one truncating
/// division.
pub open spec fn v_dot(a: V3, b: V3) -> int {
    tdiv(a.x * b.x + a.y * b.y + a.z * b.z, SCALE as int)
}

/// Cross product, each component a difference of rescaled products.
pub open spec fn v_cross(a: V3, b: V3) -> V3 {
    V3 {
        x: fmul(a.y, b.z) - fmul(a.z, b.y),
        y: fmul(a.z, b.x) - fmul(a.x, b.z),
        z: fmul(a.x, b.y) - fmul(a.y, b.x),
    }
}

/// Euclidean length: the square root, rounded down, of the squared length.
pub open spec fn v_len(v: V3) -> int {
    sqrt_floor(v_dot(v, v) * (SCALE as int))
}

/// The vector scaled down by its own length.
pub open spec fn v_unit(v: V3) -> V3 {
    v_divs(v, v_len(v))
}

/// One output channel of `Vec3::write_color`: the component truncated to
/// whole units and saturated to the `i32` range.
pub open spec fn channel_value(c: int) -> int {
    let q = tdiv(c, SCALE as int);
    if q < i32::MIN as int {
        i32::MIN as int
    } else if q > i32::MAX as int {
        i32::MAX as int
    } else {
        q
    }
}

impl Vec3 {
    /// Builds the vector with the given raw components.
    pub fn new(x: i64, y: i64, z: i64) -> (r: Vec3)
        ensures
            r@ == (V3 { x: x as int, y: y as int, z: z as int }),
    {
        Vec3 { x, y, z }
    }

    /// First component.
    pub fn x(&self) -> (r: i64)
        ensures
            r == self@.x,
    {
        self.x
    }

    /// Second component.
    pub fn y(&self) -> (r: i64)
        ensures
            r == self@.y,
    {
        self.y
    }

    /// Third component.
    pub fn z(&self) -> (r: i64)
        ensures
            r == self@.z,
    {
        self.z
    }

    /// Component-wise sum; exact.
    pub fn add(&self, other: &Vec3) -> (r: Vec3)
        requires
            i64::MIN <= self@.x + other@.x <= i64::MAX,
            i64::MIN <= self@.y + other@.y <= i64::MAX,
            i64::MIN <= self@.z + other@.z <= i64::MAX,
        ensures
            r@ == v_add(self@, other@),
    {
        Vec3 { x: self.x + other.x, y: self.y + other.y, z: self.z + other.z }
    }

    /// Component-wise difference; exact.
    pub fn sub(&self, other: &Vec3) -> (r: Vec3)
        requires
            i64::MIN <= self@.x - other@.x <= i64::MAX,
            i64::MIN <= self@.y - other@.y <= i64::MAX,
            i64::MIN <= self@.z - other@.z <= i64::MAX,
        ensures
            r@ == v_sub(self@, other@),
    {
        Vec3 { x: self.x - other.x, y: self.y - other.y, z: self.z - other.z }
    }

    /// Component-wise negation; exact.
    pub fn neg(&self) -> (r: Vec3)
        requires
            self@.x > i64::MIN,
            self@.y > i64::MIN,
            self@.z > i64::MIN,
        ensures
            r@ == v_neg(self@),
    {
        Vec3 { x: -self.x, y: -self.y, z: -self.z }
    }

    /// Scalar multiple, rounding each component toward zero.
    pub fn mul(&self, t: i64) -> (r: Vec3)
        requires
            iabs(self@.x * t) <= (i64::MAX as int) * (SCALE as int),
            iabs(self@.y * t) <= (i64::MAX as int) * (SCALE as int),
            iabs(self@.z * t) <= (i64::MAX as int) * (SCALE as int),
        ensures
            r@ == v_scale(self@, t as int),
    {
        Vec3 { x: fx_mul(self.x, t), y: fx_mul(self.y, t), z: fx_mul(self.z, t) }
    }

    /// Scalar quotient, rounding each component toward zero.
    pub fn div(&self, t: i64) -> (r: Vec3)
        requires
            t != 0,
            v3_in(self@, DIV_ARG_LIMIT as int),
        ensures
            r@ == v_divs(self@, t as int),
    {
        Vec3 { x: fx_div(self.x, t), y: fx_div(self.y, t), z: fx_div(self.z, t) }
    }

    /// In-place sum: the same result as `add` assigned back.
    pub fn add_assign(&mut self, other: Vec3)
        requires
            i64::MIN <= old(self)@.x + other@.x <= i64::MAX,
            i64::MIN <= old(self)@.y + other@.y <= i64::MAX,
            i64::MIN <= old(self)@.z + other@.z <= i64::MAX,
        ensures
            final(self)@ == v_add(old(self)@, other@),
    {
        self.x = self.x + other.x;
        self.y = self.y + other.y;
        self.z = self.z + other.z;
    }

    /// In-place difference: the same result as `sub` assigned back.
    pub fn sub_assign(&mut self, other: Vec3)
        requires
            i64::MIN <= old(self)@.x - other@.x <= i64::MAX,
            i64::MIN <= old(self)@.y - other@.y <= i64::MAX,
            i64::MIN <= old(self)@.z - other@.z <= i64::MAX,
        ensures
            final(self)@ == v_sub(old(self)@, other@),
    {
        self.x = self.x - other.x;
        self.y = self.y - other.y;
        self.z = self.z - other.z;
    }

    /// In-place scalar multiple: the same result as `mul` assigned back.
    pub fn mul_assign(&mut self, t: i64)
        requires
            iabs(old(self)@.x * t) <= (i64::MAX as int) * (SCALE as int),
            iabs(old(self)@.y * t) <= (i64::MAX as int) * (SCALE as int),
            iabs(old(self)@.z * t) <= (i64::MAX as int) * (SCALE as int),
        ensures
            final(self)@ == v_scale(old(self)@, t as int),
    {
        self.x = fx_mul(self.x, t);
        self.y = fx_mul(self.y, t);
        self.z = fx_mul(self.z, t);
    }

    /// In-place scalar quotient: the same result as `div` assigned back.
    pub fn div_assign(&mut self, t: i64)
        requires
            t != 0,
            v3_in(old(self)@, DIV_ARG_LIMIT as int),
        ensures
            final(self)@ == v_divs(old(self)@, t as int),
    {
        self.x = fx_div(self.x, t);
        self.y = fx_div(self.y, t);
        self.z = fx_div(self.z, t);
    }

    /// Dot product with one rescaling division at the end.
    pub fn dot(&self, other: &Vec3) -> (r: i64)
        requires
            v3_in(self@, DOT_ARG_LIMIT as int),
            v3_in(other@, DOT_ARG_LIMIT as int),
        ensures
            r == v_dot(self@, other@),
    {
        proof {
            lemma_i128_product_bound(self@.x, other@.x, DOT_ARG_LIMIT as int);
            lemma_i128_product_bound(self@.y, other@.y, DOT_ARG_LIMIT as int);
            lemma_i128_product_bound(self@.z, other@.z, DOT_ARG_LIMIT as int);
        }
        let s: i128 = (self.x as i128) * (other.x as i128) + (self.y as i128) * (other.y as i128)
            + (self.z as i128) * (other.z as i128);
        proof {
            lemma_tdiv_abs_le(s as int, SCALE as int, i64::MAX as int);
        }
        tdiv_i128(s, SCALE as i128) as i64
    }

    /// Cross product.
    pub fn cross(&self, other: &Vec3) -> (r: Vec3)
        requires
            v3_in(self@, DOT_ARG_LIMIT as int),
            v3_in(other@, DOT_ARG_LIMIT as int),
        ensures
            r@ == v_cross(self@, other@),
    {
        proof {
            lemma_i128_product_bound(self@.y, other@.z, DOT_ARG_LIMIT as int);
            lemma_i128_product_bound(self@.z, other@.y, DOT_ARG_LIMIT as int);
            lemma_i128_product_bound(self@.z, other@.x, DOT_ARG_LIMIT as int);
            lemma_i128_product_bound(self@.x, other@.z, DOT_ARG_LIMIT as int);
            lemma_i128_product_bound(self@.x, other@.y, DOT_ARG_LIMIT as int);
            lemma_i128_product_bound(self@.y, other@.x, DOT_ARG_LIMIT as int);
            lemma_fmul_bound(self@.y, other@.z, 2_250_000_000_000_000_000);
            lemma_fmul_bound(self@.z, other@.y, 2_250_000_000_000_000_000);
            lemma_fmul_bound(self@.z, other@.x, 2_250_000_000_000_000_000);
            lemma_fmul_bound(self@.x, other@.z, 2_250_000_000_000_000_000);
            lemma_fmul_bound(self@.x, other@.y, 2_250_000_000_000_000_000);
            lemma_fmul_bound(self@.y, other@.x, 2_250_000_000_000_000_000);
        }
        Vec3 {
            x: fx_mul(self.y, other.z) - fx_mul(self.z, other.y),
            y: fx_mul(self.z, other.x) - fx_mul(self.x, other.z),
            z: fx_mul(self.x, other.y) - fx_mul(self.y, other.x),
        }
    }

    /// Euclidean length, rounded down to the nearest raw step.
    pub fn length(&self) -> (r: i64)
        requires
            v3_in(self@, DOT_ARG_LIMIT as int),
        ensures
            r == v_len(self@),
            r >= 0,
            v_dot(self@, self@) >= 1 ==> r >= 1000,
    {
        let d: i64 = self.dot(self);
        proof {
            lemma_v_dot_self_nonneg(self@);
            assert((d as int) * (SCALE as int) < 1329227995784915872903807060280344576);
        }
        let n: u128 = (d as u128) * (SCALE as u128);
        let r: u128 = isqrt_u128(n);
        proof {
            assert(r as int <= i64::MAX as int) by (nonlinear_arith)
                requires
                    (r as int) * (r as int) <= n as int,
                    n as int <= (i64::MAX as int) * (SCALE as int),
            ;
            let ri: int = r as int;
            if v_dot(self@, self@) >= 1 {
                assert(ri >= 1000) by (nonlinear_arith)
                    requires
                        n as int >= SCALE as int,
                        SCALE == 1_000_000,
                        (n as int) < (ri + 1) * (ri + 1),
                        ri >= 0,
                ;
            }
        }
        r as i64
    }

    /// The unit-length rescaling of a nonzero vector. The fixed-point dot
    /// product of a degenerate (shorter than one raw step) vector with
    /// itself is zero; such vectors are the caller's responsibility to
    /// exclude, as is any zero-length direction.
    pub fn unit(&self) -> (r: Vec3)
        requires
            v3_in(self@, COORD_LIMIT as int),
            v_dot(self@, self@) >= 1,
        ensures
            r@ == v_unit(self@),
            v3_in(r@, 1_000_000_000_000),
    {
        let l: i64 = self.length();
        proof {
            lemma_unit_component_bounds(self@, l as int);
        }
        Vec3 { x: fx_div(self.x, l), y: fx_div(self.y, l), z: fx_div(self.z, l) }
    }

    /// The three output channels of a pixel color, truncated to whole
    /// units and saturated to the `i32` range, ready for a text image row.
    pub fn write_color(pixel_color: &Vec3) -> (r: (i32, i32, i32))
        ensures
            r.0 == channel_value(pixel_color@.x),
            r.1 == channel_value(pixel_color@.y),
            r.2 == channel_value(pixel_color@.z),
    {
        (
            Self::channel(pixel_color.x),
            Self::channel(pixel_color.y),
            Self::channel(pixel_color.z),
        )
    }

    /// One saturated channel of `write_color`.
    fn channel(c: i64) -> (r: i32)
        ensures
            r == channel_value(c as int),
    {
        let q: i128 = tdiv_i128(c as i128, SCALE as i128);
        if q < i32::MIN as i128 {
            i32::MIN
        } else if q > i32::MAX as i128 {
            i32::MAX
        } else {
            q as i32
        }
    }
}

/// A product of two values within `m` fits well inside `i128`.
proof fn lemma_i128_product_bound(a: int, b: int, m: int)
    by (nonlinear_arith)
    requires
        0 <= m <= 10_000_000_000_000_000,
        -m <= a <= m,
        -m <= b <= m,
    ensures
        iabs(a * b) <= m * m,
        m * m <= 100_000_000_000_000_000_000_000_000_000_000,
{
}

/// A product of an in-range coordinate and any `i64` fits well inside
/// `i128`.
pub proof fn iabs_i64_product_fits(a: int, b: int)
    by (nonlinear_arith)
    requires
        -(COORD_LIMIT as int) <= a <= COORD_LIMIT as int,
        i64::MIN <= b <= i64::MAX,
    ensures
        iabs(a * b) <= 10_000_000_000_000_000_000_000_000_000,
{
}

/// A rescaled product within `m * SCALE` lands within `m`.
pub proof fn lemma_fmul_bound(a: int, b: int, m: int)
    requires
        0 <= m,
        iabs(a * b) <= m * (SCALE as int),
    ensures
        -m <= fmul(a, b) <= m,
{
    lemma_tdiv_abs_le(a * b, SCALE as int, m);
}

/// The fixed-point dot product of a vector with itself is never negative.
pub proof fn lemma_v_dot_self_nonneg(v: V3)
    ensures
        v_dot(v, v) >= 0,
{
    assert(v.x * v.x + v.y * v.y + v.z * v.z >= 0) by (nonlinear_arith);
    lemma_div_pos_is_pos(v.x * v.x + v.y * v.y + v.z * v.z, SCALE as int);
}

/// The dot product of vectors within `m` is within `3 * m * m / SCALE`,
/// give or take the final truncation.
pub proof fn lemma_v_dot_bound(a: V3, b: V3, m: int)
    requires
        0 <= m,
        v3_in(a, m),
        v3_in(b, m),
    ensures
        -(3 * m * m / (SCALE as int) + 1) <= v_dot(a, b) <= 3 * m * m / (SCALE as int) + 1,
{
    let s = a.x * b.x + a.y * b.y + a.z * b.z;
    let k = 3 * m * m / (SCALE as int) + 1;
    assert(iabs(s) <= 3 * (m * m)) by (nonlinear_arith)
        requires
            0 <= m,
            -m <= a.x <= m,
            -m <= a.y <= m,
            -m <= a.z <= m,
            -m <= b.x <= m,
            -m <= b.y <= m,
            -m <= b.z <= m,
            s == a.x * b.x + a.y * b.y + a.z * b.z,
    ;
    assert(3 * m * m >= 0) by (nonlinear_arith)
        requires
            0 <= m,
    ;
    lemma_fundamental_div_mod(3 * m * m, SCALE as int);
    vstd::arithmetic::div_mod::lemma_mod_division_less_than_divisor(3 * m * m, SCALE as int);
    lemma_div_pos_is_pos(3 * m * m, SCALE as int);
    assert(iabs(s) <= k * (SCALE as int)) by (nonlinear_arith)
        requires
            iabs(s) <= 3 * (m * m),
            3 * m * m == (SCALE as int) * (3 * m * m / (SCALE as int)) + (3 * m * m) % (
            SCALE as int),
            (3 * m * m) % (SCALE as int) < SCALE as int,
            k == 3 * m * m / (SCALE as int) + 1,
            k >= 1,
            SCALE == 1_000_000,
    ;
    lemma_tdiv_abs_le(s, SCALE as int, k);
}

/// Bounds for the components of a unit vector built from in-range parts.
proof fn lemma_unit_component_bounds(v: V3, l: int)
    requires
        v3_in(v, COORD_LIMIT as int),
        l == v_len(v),
        l >= 1000,
    ensures
        -1_000_000_000_000 <= fdiv(v.x, l) <= 1_000_000_000_000,
        -1_000_000_000_000 <= fdiv(v.y, l) <= 1_000_000_000_000,
        -1_000_000_000_000 <= fdiv(v.z, l) <= 1_000_000_000_000,
{
    lemma_unit_one_component(v.x, l);
    lemma_unit_one_component(v.y, l);
    lemma_unit_one_component(v.z, l);
}

/// One component of the rescaling in `lemma_unit_component_bounds`.
proof fn lemma_unit_one_component(c: int, l: int)
    requires
        -(COORD_LIMIT as int) <= c <= COORD_LIMIT as int,
        l >= 1000,
    ensures
        -1_000_000_000_000 <= fdiv(c, l) <= 1_000_000_000_000,
{
    assert(iabs(c * (SCALE as int)) <= 1_000_000_000_000 * iabs(l)) by (nonlinear_arith)
        requires
            -(COORD_LIMIT as int) <= c <= COORD_LIMIT as int,
            COORD_LIMIT == 1_000_000_000,
            SCALE == 1_000_000,
            l >= 1000,
    ;
    lemma_tdiv_abs_le(c * (SCALE as int), l, 1_000_000_000_000);
}

/// Law: vector addition commutes.
pub proof fn lemma_vec_add_commutes(a: V3, b: V3)
    ensures
        v_add(a, b) == v_add(b, a),
{
}

/// Law: vector addition associates.
pub proof fn lemma_vec_add_associates(a: V3, b: V3, c: V3)
    ensures
        v_add(v_add(a, b), c) == v_add(a, v_add(b, c)),
{
}

/// Law: the dot product is symmetric.
pub proof fn lemma_vec_dot_commutes(a: V3, b: V3)
    ensures
        v_dot(a, b) == v_dot(b, a),
{
    assert(a.x * b.x + a.y * b.y + a.z * b.z == b.x * a.x + b.y * a.y + b.z * a.z)
        by (nonlinear_arith);
}

/// Law: the cross product is antisymmetric.
pub proof fn lemma_vec_cross_antisymmetric(a: V3, b: V3)
    ensures
        v_cross(a, b) == v_neg(v_cross(b, a)),
{
    assert(a.y * b.z == b.z * a.y && a.z * b.y == b.y * a.z && a.z * b.x == b.x * a.z && a.x
        * b.z == b.z * a.x && a.x * b.y == b.y * a.x && a.y * b.x == b.x * a.y)
        by (nonlinear_arith);
}

/// Multiplying by a whole number of units is exact.
pub proof fn lemma_fmul_by_whole(a: int, w: int)
    requires
        w % (SCALE as int) == 0,
    ensures
        fmul(a, w) == a * (w / (SCALE as int)),
{
    let k = w / (SCALE as int);
    lemma_fundamental_div_mod(w, SCALE as int);
    assert(a * w == (a * k) * (SCALE as int)) by (nonlinear_arith)
        requires
            w == (SCALE as int) * k,
    ;
    lemma_tdiv_mul_exact(a * k, SCALE as int);
}

/// Law: scaling by a product of whole-unit scalars equals scaling twice.
/// For fractional scalars the two sides can differ by rounding: with
/// components measured in raw steps, scaling `999999` by `1234` and then
/// by `5678` gives `7`, while scaling it by their fixed-point product
/// gives `6`.
pub proof fn lemma_vec_scale_associates(v: V3, s: int, t: int)
    requires
        s % (SCALE as int) == 0,
        t % (SCALE as int) == 0,
    ensures
        v_scale(v, fmul(s, t)) == v_scale(v_scale(v, s), t),
{
    let ks = s / (SCALE as int);
    let kt = t / (SCALE as int);
    lemma_fundamental_div_mod(s, SCALE as int);
    lemma_fundamental_div_mod(t, SCALE as int);
    lemma_fmul_by_whole(s, t);
    assert(s * kt == (ks * kt) * (SCALE as int)) by (nonlinear_arith)
        requires
            s == (SCALE as int) * ks,
            t == (SCALE as int) * kt,
    ;
    assert((s * kt) % (SCALE as int) == 0) by {
        lemma_tdiv_mul_exact(ks * kt, SCALE as int);
        vstd::arithmetic::div_mod::lemma_mod_multiples_basic(ks * kt, SCALE as int);
    }
    lemma_fmul_by_whole(v.x, s);
    lemma_fmul_by_whole(v.y, s);
    lemma_fmul_by_whole(v.z, s);
    lemma_fmul_by_whole(v.x * ks, t);
    lemma_fmul_by_whole(v.y * ks, t);
    lemma_fmul_by_whole(v.z * ks, t);
    lemma_fmul_by_whole(v.x, s * kt);
    lemma_fmul_by_whole(v.y, s * kt);
    lemma_fmul_by_whole(v.z, s * kt);
    assert((s * kt) / (SCALE as int) == ks * kt) by {
        lemma_tdiv_mul_exact(ks * kt, SCALE as int);
        vstd::arithmetic::div_mod::lemma_div_multiples_vanish(ks * kt, SCALE as int);
        assert((ks * kt) * (SCALE as int) == (SCALE as int) * (ks * kt)) by (nonlinear_arith);
    }
    assert(v.x * (ks * kt) == (v.x * ks) * kt && v.y * (ks * kt) == (v.y * ks) * kt && v.z * (ks
        * kt) == (v.z * ks) * kt) by (nonlinear_arith);
}

/// Law: a unit vector has length exactly one unit whenever the arithmetic
/// along the way is exact: the squared length is a perfect square `l * l`,
/// is a whole multiple of `SCALE`, and `l` divides each rescaled component.
pub proof fn lemma_unit_length_exact(v: V3, l: int)
    requires
        l >= 1000,
        l * l == v.x * v.x + v.y * v.y + v.z * v.z,
        (l * l) % (SCALE as int) == 0,
        (v.x * (SCALE as int)) % l == 0,
        (v.y * (SCALE as int)) % l == 0,
        (v.z * (SCALE as int)) % l == 0,
    ensures
        v_len(v) == l,
        v_len(v_unit(v)) == SCALE as int,
{
    let s = SCALE as int;
    let q2 = l * l;
    // The squared length divides out exactly: v_dot(v, v) == q2 / s.
    let d = q2 / s;
    lemma_fundamental_div_mod(q2, s);
    assert(q2 == d * s) by (nonlinear_arith)
        requires
            q2 == s * d,
    ;
    lemma_tdiv_mul_exact(d, s);
    assert(v_dot(v, v) == d);
    // And the length is the exact root of q2.
    assert(d * s == q2);
    assert(q2 < (l + 1) * (l + 1)) by (nonlinear_arith)
        requires
            l >= 1000,
            q2 == l * l,
    ;
    lemma_sqrt_floor_is(q2, l);
    assert(v_len(v) == l);
    // Each component of the unit vector is exact: u_i == v_i * s / l.
    let kx = (v.x * s) / l;
    let ky = (v.y * s) / l;
    let kz = (v.z * s) / l;
    lemma_fundamental_div_mod(v.x * s, l);
    lemma_fundamental_div_mod(v.y * s, l);
    lemma_fundamental_div_mod(v.z * s, l);
    assert(v.x * s == kx * l && v.y * s == ky * l && v.z * s == kz * l) by (nonlinear_arith)
        requires
            v.x * s == l * kx,
            v.y * s == l * ky,
            v.z * s == l * kz,
    ;
    lemma_tdiv_mul_exact(kx, l);
    lemma_tdiv_mul_exact(ky, l);
    lemma_tdiv_mul_exact(kz, l);
    let u = v_unit(v);
    assert(u.x == kx && u.y == ky && u.z == kz);
    // Their squares sum to s * s because l * l cancels.
    assert((kx * kx) * (l * l) == (v.x * v.x) * (s * s)) by (nonlinear_arith)
        requires
            v.x * s == kx * l,
    ;
    assert((ky * ky) * (l * l) == (v.y * v.y) * (s * s)) by (nonlinear_arith)
        requires
            v.y * s == ky * l,
    ;
    assert((kz * kz) * (l * l) == (v.z * v.z) * (s * s)) by (nonlinear_arith)
        requires
            v.z * s == kz * l,
    ;
    assert((kx * kx + ky * ky + kz * kz) * (l * l) == (s * s) * (l * l)) by (nonlinear_arith)
        requires
            (kx * kx) * (l * l) == (v.x * v.x) * (s * s),
            (ky * ky) * (l * l) == (v.y * v.y) * (s * s),
            (kz * kz) * (l * l) == (v.z * v.z) * (s * s),
            l * l == v.x * v.x + v.y * v.y + v.z * v.z,
    ;
    assert(kx * kx + ky * ky + kz * kz == s * s) by (nonlinear_arith)
        requires
            (kx * kx + ky * ky + kz * kz) * (l * l) == (s * s) * (l * l),
            l >= 1000,
    ;
    // So the unit vector's fixed-point squared length is exactly s.
    lemma_tdiv_mul_exact(s, s);
    assert(v_dot(u, u) == s);
    assert(s * s < (s + 1) * (s + 1)) by (nonlinear_arith)
        requires
            s == 1_000_000,
    ;
    lemma_sqrt_floor_is(s * s, s);
}

} // verus!
