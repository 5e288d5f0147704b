//! Geometric laws of the intersection pipeline, proved once and for all.
//!
//! Where a statement needs the fixed-point arithmetic to be exact it is
//! made for whole-unit scenes: every coordinate and the radius a whole
//! number of units, so that no rescaling division rounds.

use crate::fixed::{
    lemma_sqrt_floor_is, lemma_sqrt_floor_props, lemma_tdiv_monotone, lemma_tdiv_mul_exact, tdiv,
    SCALE,
};
use crate::hittable::{object_hit, HittableV, RecV};
use crate::hittable_list::list_hit;
use crate::ray::{ray_at, RayV};
use crate::sphere::{
    hit_a, hit_c, hit_disc, hit_h, hit_oc, hit_root1, hit_root2, hit_sq, sphere_hit, sphere_rec,
    SphereV,
};
use crate::vec3::{v_divs, v_dot, v_sub, V3};
use vstd::prelude::*;

verus! {

/// The dot product of two whole-unit vectors is exact.
proof fn lemma_dot_scaled(ax: int, ay: int, az: int, bx: int, by: int, bz: int)
    ensures
        v_dot(
            V3 { x: ax * (SCALE as int), y: ay * (SCALE as int), z: az * (SCALE as int) },
            V3 { x: bx * (SCALE as int), y: by * (SCALE as int), z: bz * (SCALE as int) },
        ) == (ax * bx + ay * by + az * bz) * (SCALE as int),
{
    let s = SCALE as int;
    assert((ax * s) * (bx * s) == ((ax * bx) * s) * s) by (nonlinear_arith);
    assert((ay * s) * (by * s) == ((ay * by) * s) * s) by (nonlinear_arith);
    assert((az * s) * (bz * s) == ((az * bz) * s) * s) by (nonlinear_arith);
    assert(((ax * bx) * s) * s + ((ay * by) * s) * s + ((az * bz) * s) * s == ((ax * bx + ay * by
        + az * bz) * s) * s) by (nonlinear_arith);
    lemma_tdiv_mul_exact((ax * bx + ay * by + az * bz) * s, s);
}

/// Law: a ray whose closest approach to a sphere's center exceeds the
/// radius misses, whatever the query interval, and for every member order
/// downstream. Stated for whole-unit scenes, where the arithmetic is
/// exact; with `a` the squared direction length, `h` the direction dotted
/// with the center offset and `c2` the squared offset length, the squared
/// closest-approach distance exceeds the squared radius exactly when
/// `a * c2 - h * h > a * rad * rad`.
pub proof fn lemma_miss_when_apart(
    cx: int,
    cy: int,
    cz: int,
    ox: int,
    oy: int,
    oz: int,
    dx: int,
    dy: int,
    dz: int,
    rad: int,
    t_min: int,
    t_max: int,
)
    requires
        rad >= 1,
        dx * dx + dy * dy + dz * dz >= 1,
        (dx * dx + dy * dy + dz * dz) * ((cx - ox) * (cx - ox) + (cy - oy) * (cy - oy) + (cz - oz)
            * (cz - oz)) - (dx * (cx - ox) + dy * (cy - oy) + dz * (cz - oz)) * (dx * (cx - ox)
            + dy * (cy - oy) + dz * (cz - oz)) > (dx * dx + dy * dy + dz * dz) * (rad * rad),
    ensures
        sphere_hit(
            SphereV {
                center: V3 {
                    x: cx * (SCALE as int),
                    y: cy * (SCALE as int),
                    z: cz * (SCALE as int),
                },
                radius: rad * (SCALE as int),
            },
            RayV {
                origin: V3 { x: ox * (SCALE as int), y: oy * (SCALE as int), z: oz * (SCALE as int) },
                direction: V3 {
                    x: dx * (SCALE as int),
                    y: dy * (SCALE as int),
                    z: dz * (SCALE as int),
                },
            },
            t_min,
            t_max,
        ) is None,
{
    let s = SCALE as int;
    let ux = cx - ox;
    let uy = cy - oy;
    let uz = cz - oz;
    let aa = dx * dx + dy * dy + dz * dz;
    let hh = dx * ux + dy * uy + dz * uz;
    let c2 = ux * ux + uy * uy + uz * uz;
    let sp = SphereV {
        center: V3 { x: cx * s, y: cy * s, z: cz * s },
        radius: rad * s,
    };
    let rv = RayV {
        origin: V3 { x: ox * s, y: oy * s, z: oz * s },
        direction: V3 { x: dx * s, y: dy * s, z: dz * s },
    };
    assert(hit_oc(sp, rv) == V3 { x: ux * s, y: uy * s, z: uz * s });
    lemma_dot_scaled(dx, dy, dz, dx, dy, dz);
    assert(hit_a(rv) == aa * s);
    lemma_dot_scaled(dx, dy, dz, ux, uy, uz);
    assert(hit_h(sp, rv) == hh * s);
    lemma_dot_scaled(ux, uy, uz, ux, uy, uz);
    assert((rad * s) * (rad * s) == ((rad * rad) * s) * s) by (nonlinear_arith);
    lemma_tdiv_mul_exact((rad * rad) * s, s);
    assert(hit_c(sp, rv) == c2 * s - (rad * rad) * s);
    assert((hh * s) * (hh * s) == ((hh * hh) * s) * s) by (nonlinear_arith);
    lemma_tdiv_mul_exact((hh * hh) * s, s);
    assert((aa * s) * (c2 * s - (rad * rad) * s) == ((aa * c2 - aa * (rad * rad)) * s) * s)
        by (nonlinear_arith);
    lemma_tdiv_mul_exact((aa * c2 - aa * (rad * rad)) * s, s);
    assert(hit_disc(sp, rv) == (hh * hh) * s - (aa * c2 - aa * (rad * rad)) * s);
    assert(hit_disc(sp, rv) < 0) by (nonlinear_arith)
        requires
            hit_disc(sp, rv) == (hh * hh) * s - (aa * c2 - aa * (rad * rad)) * s,
            aa * c2 - hh * hh > aa * (rad * rad),
            s == 1_000_000,
    ;
}

/// Law: a ray cast down the axis through the center of a sphere at the
/// origin strikes the front surface: the hit parameter is the distance to
/// the near surface, the hit point sits on the sphere at `z == rad`, the
/// normal is the positive axis direction at unit scale, and the record
/// faces front. Stated for whole-unit scenes, where the arithmetic is
/// exact: origin `(0, 0, z0)`, direction `(0, 0, -1)`, radius `rad`.
pub proof fn lemma_axial_hit_through_center(z0: int, rad: int, t_min: int, t_max: int)
    requires
        1 <= rad < z0,
        t_min < (z0 - rad) * (SCALE as int) < t_max,
    ensures
        sphere_hit(
            SphereV { center: V3 { x: 0, y: 0, z: 0 }, radius: rad * (SCALE as int) },
            RayV {
                origin: V3 { x: 0, y: 0, z: z0 * (SCALE as int) },
                direction: V3 { x: 0, y: 0, z: -(SCALE as int) },
            },
            t_min,
            t_max,
        ) == Some(
            RecV {
                point: V3 { x: 0, y: 0, z: rad * (SCALE as int) },
                normal: V3 { x: 0, y: 0, z: SCALE as int },
                t: (z0 - rad) * (SCALE as int),
                facing_front: true,
            },
        ),
{
    let s = SCALE as int;
    let sp = SphereV { center: V3 { x: 0, y: 0, z: 0 }, radius: rad * s };
    let rv = RayV {
        origin: V3 { x: 0, y: 0, z: z0 * s },
        direction: V3 { x: 0, y: 0, z: -s },
    };
    lemma_dot_scaled(0, 0, -1, 0, 0, -1);
    assert(0 * 0 + 0 * 0 + (-1) * (-1) == 1) by (nonlinear_arith);
    assert(hit_a(rv) == 1 * s);
    assert(hit_oc(sp, rv) == V3 { x: 0, y: 0, z: (-z0) * s });
    lemma_dot_scaled(0, 0, -1, 0, 0, -z0);
    assert(0 * 0 + 0 * 0 + (-1) * (-z0) == z0) by (nonlinear_arith);
    assert(hit_h(sp, rv) == z0 * s);
    lemma_dot_scaled(0, 0, -z0, 0, 0, -z0);
    assert(0 * 0 + 0 * 0 + (-z0) * (-z0) == z0 * z0) by (nonlinear_arith);
    assert((rad * s) * (rad * s) == ((rad * rad) * s) * s) by (nonlinear_arith);
    lemma_tdiv_mul_exact((rad * rad) * s, s);
    assert(hit_c(sp, rv) == (z0 * z0) * s - (rad * rad) * s);
    assert((z0 * s) * (z0 * s) == ((z0 * z0) * s) * s) by (nonlinear_arith);
    lemma_tdiv_mul_exact((z0 * z0) * s, s);
    assert((1 * s) * ((z0 * z0) * s - (rad * rad) * s) == ((z0 * z0 - rad * rad) * s) * s)
        by (nonlinear_arith);
    lemma_tdiv_mul_exact((z0 * z0 - rad * rad) * s, s);
    let disc = hit_disc(sp, rv);
    assert(disc == (rad * rad) * s) by (nonlinear_arith)
        requires
            disc == (z0 * z0) * s - (z0 * z0 - rad * rad) * s,
    ;
    assert(disc >= s) by (nonlinear_arith)
        requires
            disc == (rad * rad) * s,
            rad >= 1,
            s == 1_000_000,
    ;
    // The root of the discriminant is exactly rad * s.
    assert(disc * s == (rad * s) * (rad * s)) by (nonlinear_arith)
        requires
            disc == (rad * rad) * s,
    ;
    assert(disc * s < (rad * s + 1) * (rad * s + 1)) by (nonlinear_arith)
        requires
            disc * s == (rad * s) * (rad * s),
            rad >= 1,
            s == 1_000_000,
    ;
    lemma_sqrt_floor_is(disc * s, rad * s);
    assert(hit_sq(sp, rv) == rad * s);
    // The nearer root is the distance to the front surface.
    assert((z0 * s - rad * s) * s == ((z0 - rad) * s) * (1 * s)) by (nonlinear_arith);
    lemma_tdiv_mul_exact((z0 - rad) * s, 1 * s);
    assert(hit_root1(sp, rv) == (z0 - rad) * s);
    let t = (z0 - rad) * s;
    // The record: point on the sphere, outward normal kept, facing front.
    assert((-s) * ((z0 - rad) * s) == (-(z0 - rad) * s) * s) by (nonlinear_arith);
    lemma_tdiv_mul_exact(-(z0 - rad) * s, s);
    assert(0 * ((z0 - rad) * s) == 0 * s) by (nonlinear_arith);
    lemma_tdiv_mul_exact(0, s);
    let point = ray_at(rv, t);
    assert(point.z == z0 * s + -(z0 - rad) * s);
    assert(point == V3 { x: 0, y: 0, z: rad * s });
    assert(v_sub(point, sp.center) == V3 { x: 0, y: 0, z: rad * s });
    assert((rad * s) * s == s * (rad * s)) by (nonlinear_arith);
    lemma_tdiv_mul_exact(s, rad * s);
    assert(0 * s == 0 * (rad * s)) by (nonlinear_arith);
    lemma_tdiv_mul_exact(0, rad * s);
    let outward = v_divs(v_sub(point, sp.center), rad * s);
    assert(outward == V3 { x: 0, y: 0, z: s });
    assert(0 * 0 + 0 * 0 + (-s) * s == (-s) * s) by (nonlinear_arith);
    lemma_tdiv_mul_exact(-s, s);
    assert(v_dot(rv.direction, outward) == -s);
    assert(sphere_rec(sp, rv, t) == RecV {
        point: V3 { x: 0, y: 0, z: rad * s },
        normal: V3 { x: 0, y: 0, z: s },
        t,
        facing_front: true,
    });
}

/// Shrinking the upper bound to at most the found parameter empties the
/// result: no strictly nearer intersection exists.
pub proof fn lemma_sphere_hit_tightens(s: SphereV, r: RayV, t_min: int, t_max: int, bound: int)
    requires
        hit_a(r) >= 1,
        sphere_hit(s, r, t_min, t_max) is Some,
        bound <= sphere_hit(s, r, t_min, t_max).unwrap().t,
    ensures
        sphere_hit(s, r, t_min, bound) is None,
{
    lemma_sphere_roots_ordered(s, r);
}

/// Shrinking the upper bound while keeping it above the found parameter
/// changes nothing: the same nearest intersection is returned.
pub proof fn lemma_sphere_hit_keeps(s: SphereV, r: RayV, t_min: int, t_max: int, bound: int)
    requires
        hit_a(r) >= 1,
        sphere_hit(s, r, t_min, t_max) is Some,
        sphere_hit(s, r, t_min, t_max).unwrap().t < bound <= t_max,
    ensures
        sphere_hit(s, r, t_min, bound) == sphere_hit(s, r, t_min, t_max),
{
    lemma_sphere_roots_ordered(s, r);
}

/// When the discriminant allows roots at all, the nearer root really is
/// no larger than the farther one.
proof fn lemma_sphere_roots_ordered(s: SphereV, r: RayV)
    requires
        hit_a(r) >= 1,
    ensures
        hit_disc(s, r) >= 0 ==> hit_root1(s, r) <= hit_root2(s, r),
{
    if hit_disc(s, r) >= 0 {
        lemma_sqrt_floor_props(hit_disc(s, r) * (SCALE as int));
        let sq = hit_sq(s, r);
        let h = hit_h(s, r);
        assert((h - sq) * (SCALE as int) <= (h + sq) * (SCALE as int)) by (nonlinear_arith)
            requires
                sq >= 0,
                SCALE == 1_000_000,
        ;
        lemma_tdiv_monotone((h - sq) * (SCALE as int), (h + sq) * (SCALE as int), hit_a(r));
    }
}

/// Law: across an aggregate of two overlapping spheres the nearer hit
/// wins, in either insertion order: both aggregates resolve to the very
/// record of the nearer intersection.
pub proof fn lemma_closest_wins(
    sa: SphereV,
    sb: SphereV,
    r: RayV,
    t_min: int,
    t_max: int,
    ha: RecV,
    hb: RecV,
)
    requires
        hit_a(r) >= 1,
        sphere_hit(sa, r, t_min, t_max) == Some(ha),
        sphere_hit(sb, r, t_min, t_max) == Some(hb),
        ha.t < hb.t,
    ensures
        list_hit(seq![HittableV::Sphere(sa), HittableV::Sphere(sb)], r, t_min, t_max) == Some(ha),
        list_hit(seq![HittableV::Sphere(sb), HittableV::Sphere(sa)], r, t_min, t_max) == Some(ha),
{
    lemma_hit_in_interval(sa, r, t_min, t_max);
    lemma_hit_in_interval(sb, r, t_min, t_max);
    let ab = seq![HittableV::Sphere(sa), HittableV::Sphere(sb)];
    let ba = seq![HittableV::Sphere(sb), HittableV::Sphere(sa)];
    assert(ab.drop_last() =~= seq![HittableV::Sphere(sa)]);
    assert(ba.drop_last() =~= seq![HittableV::Sphere(sb)]);
    assert(ab.last() == HittableV::Sphere(sb));
    assert(ba.last() == HittableV::Sphere(sa));
    assert(seq![HittableV::Sphere(sa)].drop_last() =~= Seq::<HittableV>::empty());
    assert(seq![HittableV::Sphere(sb)].drop_last() =~= Seq::<HittableV>::empty());
    assert(seq![HittableV::Sphere(sa)].last() == HittableV::Sphere(sa));
    assert(seq![HittableV::Sphere(sb)].last() == HittableV::Sphere(sb));
    assert(list_hit(Seq::<HittableV>::empty(), r, t_min, t_max) is None);
    assert(list_hit(seq![HittableV::Sphere(sa)], r, t_min, t_max) == Some(ha));
    assert(list_hit(seq![HittableV::Sphere(sb)], r, t_min, t_max) == Some(hb));
    // Nearer first: the farther sphere finds nothing below the bound.
    lemma_sphere_hit_tightens(sb, r, t_min, t_max, ha.t);
    assert(list_hit(ab, r, t_min, t_max) == Some(ha));
    // Farther first: the nearer sphere still wins under the shrunk bound.
    lemma_sphere_hit_keeps(sa, r, t_min, t_max, hb.t);
    assert(list_hit(ba, r, t_min, t_max) == Some(ha));
}

/// A found intersection lies strictly inside the query interval.
pub proof fn lemma_hit_in_interval(s: SphereV, r: RayV, t_min: int, t_max: int)
    ensures
        sphere_hit(s, r, t_min, t_max) matches Some(h) ==> t_min < h.t < t_max,
{
}

} // verus!
