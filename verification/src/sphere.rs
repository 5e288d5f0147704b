//! Spheres and their closed-form ray intersection.
//!
//! The quadratic `|P(t) - center|^2 == radius^2` is solved in fixed-point
//! arithmetic: the discriminant decides whether the ray meets the sphere,
//! and the nearer root inside the query interval is always preferred. The
//! specification functions below spell out the exact integer value of each
//! stage, rounding included, and the executable `hit` is proved to match.

use crate::fixed::{
    fmul, iabs, isqrt_u128, lemma_tdiv_abs_le, sqrt_floor, tdiv, tdiv_i128, COORD_LIMIT,
    NORMAL_LIMIT, SCALE, T_LIMIT,
};
use crate::hittable::{HitRecord, RecV};
use crate::ray::{ray_at, ray_wf, Ray, RayV};
use crate::vec3::{
    lemma_fmul_bound, lemma_v_dot_bound, v3_in, v_divs, v_dot, v_neg, v_sub, Vec3, V3,
};
use vstd::prelude::*;

verus! {

/// The mathematical value of a `Sphere`.
pub ghost struct SphereV {
    pub center: V3,
    pub radius: int,
}

/// Failure to build a scene primitive from out-of-range parameters.
#[derive(Clone, Copy, Debug, PartialEq, Eq, Structural)]
pub enum GeometryConstructionError {
    /// A sphere needs a strictly positive radius.
    NonPositiveRadius,
}

/// A solid sphere, immutable once constructed.
#[derive(Clone, Copy, Debug)]
pub struct Sphere {
    pub center: Vec3,
    pub radius: i64,
}

impl View for Sphere {
    type V = SphereV;

    open spec fn view(&self) -> SphereV {
        SphereV { center: self.center@, radius: self.radius as int }
    }
}

/// A well-formed sphere: center in range, radius positive and in range.
pub open spec fn sphere_wf(s: SphereV) -> bool {
    v3_in(s.center, COORD_LIMIT as int) && 1 <= s.radius <= COORD_LIMIT as int
}

/// Quadratic coefficient `a`: the direction dotted with itself.
pub open spec fn hit_a(r: RayV) -> int {
    v_dot(r.direction, r.direction)
}

/// The offset from the ray origin to the sphere center.
pub open spec fn hit_oc(s: SphereV, r: RayV) -> V3 {
    v_sub(s.center, r.origin)
}

/// Half the negated linear coefficient: direction dotted with the offset.
pub open spec fn hit_h(s: SphereV, r: RayV) -> int {
    v_dot(r.direction, hit_oc(s, r))
}

/// Constant coefficient: squared offset length minus squared radius.
pub open spec fn hit_c(s: SphereV, r: RayV) -> int {
    v_dot(hit_oc(s, r), hit_oc(s, r)) - fmul(s.radius, s.radius)
}

/// The discriminant `h * h - a * c`, rescaled to micro-units.
pub open spec fn hit_disc(s: SphereV, r: RayV) -> int {
    tdiv(hit_h(s, r) * hit_h(s, r), SCALE as int) - tdiv(hit_a(r) * hit_c(s, r), SCALE as int)
}

/// The square root of the discriminant, in raw steps.
pub open spec fn hit_sq(s: SphereV, r: RayV) -> int {
    sqrt_floor(hit_disc(s, r) * (SCALE as int))
}

/// The nearer root of the quadratic.
pub open spec fn hit_root1(s: SphereV, r: RayV) -> int {
    tdiv((hit_h(s, r) - hit_sq(s, r)) * (SCALE as int), hit_a(r))
}

/// The farther root of the quadratic.
pub open spec fn hit_root2(s: SphereV, r: RayV) -> int {
    tdiv((hit_h(s, r) + hit_sq(s, r)) * (SCALE as int), hit_a(r))
}

/// The record for an accepted root `t`: the hit point, the outward normal
/// rescaled by the radius, and the orientation rule of the hit-record.
pub open spec fn sphere_rec(s: SphereV, r: RayV, t: int) -> RecV {
    let point = ray_at(r, t);
    let outward = v_divs(v_sub(point, s.center), s.radius);
    let facing = v_dot(r.direction, outward) < 0;
    RecV {
        point,
        normal: if facing {
            outward
        } else {
            v_neg(outward)
        },
        t,
        facing_front: facing,
    }
}

/// The nearest intersection of the ray with the sphere strictly inside
/// `(t_min, t_max)`: the nearer root when it qualifies, else the farther
/// root, else nothing. A negative discriminant means the ray misses.
pub open spec fn sphere_hit(s: SphereV, r: RayV, t_min: int, t_max: int) -> Option<RecV> {
    if hit_disc(s, r) < 0 {
        None
    } else if t_min < hit_root1(s, r) && hit_root1(s, r) < t_max {
        Some(sphere_rec(s, r, hit_root1(s, r)))
    } else if t_min < hit_root2(s, r) && hit_root2(s, r) < t_max {
        Some(sphere_rec(s, r, hit_root2(s, r)))
    } else {
        None
    }
}

impl Sphere {
    /// Builds a sphere, rejecting a radius of zero or less before any hit
    /// test can ever run.
    pub fn new(center: Vec3, radius: i64) -> (r: Result<Sphere, GeometryConstructionError>)
        requires
            v3_in(center@, COORD_LIMIT as int),
            radius <= COORD_LIMIT,
        ensures
            r is Ok <==> radius >= 1,
            r matches Ok(s) ==> s@ == (SphereV { center: center@, radius: radius as int }),
            r matches Ok(s) ==> sphere_wf(s@),
            r matches Err(e) ==> e == GeometryConstructionError::NonPositiveRadius,
    {
        if radius >= 1 {
            Ok(Sphere { center, radius })
        } else {
            Err(GeometryConstructionError::NonPositiveRadius)
        }
    }

    /// Tests the ray against the sphere inside the open interval
    /// `(t_min, t_max)`: exactly `sphere_hit`. On success the record holds
    /// the nearer acceptable root; on failure it is left untouched.
    pub fn hit(&self, ray: Ray, t_min: i64, t_max: i64, hit_record: &mut HitRecord) -> (res: bool)
        requires
            sphere_wf(self@),
            ray_wf(ray@),
            v_dot(ray@.direction, ray@.direction) >= 1,
            -T_LIMIT <= t_min,
            t_max <= T_LIMIT,
        ensures
            res == sphere_hit(self@, ray@, t_min as int, t_max as int) is Some,
            res ==> sphere_hit(self@, ray@, t_min as int, t_max as int) == Some(
                final(hit_record)@,
            ),
            !res ==> *final(hit_record) == *old(hit_record),
            res ==> t_min < final(hit_record)@.t < t_max,
            res ==> v3_in(final(hit_record)@.normal, NORMAL_LIMIT as int),
    {
        let oc = self.center.sub(&ray.origin);
        let a: i64 = ray.direction.dot(&ray.direction);
        let h: i64 = ray.direction.dot(&oc);
        proof {
            lemma_v_dot_bound(ray@.direction, ray@.direction, COORD_LIMIT as int);
            lemma_v_dot_bound(ray@.direction, hit_oc(self@, ray@), 2 * COORD_LIMIT as int);
            lemma_v_dot_bound(hit_oc(self@, ray@), hit_oc(self@, ray@), 2 * COORD_LIMIT as int);
            assert(iabs((self@.radius) * (self@.radius)) <= 1_000_000_000_000 * (SCALE as int))
                by (nonlinear_arith)
                requires
                    1 <= self@.radius <= COORD_LIMIT as int,
                    COORD_LIMIT == 1_000_000_000,
                    SCALE == 1_000_000,
            ;
            lemma_fmul_bound(self@.radius, self@.radius, 1_000_000_000_000);
        }
        let rr: i64 = crate::fixed::fx_mul(self.radius, self.radius);
        let c: i64 = oc.dot(&oc) - rr;
        proof {
            assert(iabs((h as int) * (h as int)) <= 150_000_000_000_000_000_000 * (SCALE as int))
                by (nonlinear_arith)
                requires
                    -12_000_000_000_001 <= h as int <= 12_000_000_000_001,
            ;
            lemma_tdiv_abs_le((h as int) * (h as int), SCALE as int, 150_000_000_000_000_000_000);
            assert(iabs((a as int) * (c as int)) <= 150_000_000_000_000_000_000 * (SCALE as int))
                by (nonlinear_arith)
                requires
                    -3_000_000_000_001 <= a as int <= 3_000_000_000_001,
                    -14_000_000_000_002 <= c as int <= 14_000_000_000_002,
            ;
            lemma_tdiv_abs_le((a as int) * (c as int), SCALE as int, 150_000_000_000_000_000_000);
        }
        let hh: i128 = tdiv_i128((h as i128) * (h as i128), SCALE as i128);
        let ac: i128 = tdiv_i128((a as i128) * (c as i128), SCALE as i128);
        let disc: i128 = hh - ac;
        proof {
            assert(disc as int == hit_disc(self@, ray@));
        }
        if disc < 0 {
            return false;
        }
        let sq_u: u128 = isqrt_u128((disc as u128) * (SCALE as u128));
        proof {
            assert((sq_u as int) <= 20_000_000_000_000) by (nonlinear_arith)
                requires
                    (sq_u as int) * (sq_u as int) <= (disc as int) * (SCALE as int),
                    0 <= disc as int <= 300_000_000_000_000_000_000,
                    SCALE == 1_000_000,
            ;
            assert(sq_u as int == hit_sq(self@, ray@));
        }
        let sq: i128 = sq_u as i128;
        let root1: i128 = tdiv_i128((h as i128 - sq) * (SCALE as i128), a as i128);
        proof {
            assert(root1 as int == hit_root1(self@, ray@));
        }
        let mut root: i128 = root1;
        if !((t_min as i128) < root && root < (t_max as i128)) {
            let root2: i128 = tdiv_i128((h as i128 + sq) * (SCALE as i128), a as i128);
            proof {
                assert(root2 as int == hit_root2(self@, ray@));
            }
            root = root2;
            if !((t_min as i128) < root && root < (t_max as i128)) {
                return false;
            }
        }
        let t: i64 = root as i64;
        hit_record.t = t;
        hit_record.point = ray.at(t);
        let offset = hit_record.point.sub(&self.center);
        proof {
            lemma_outward_bounds(offset@.x, self@.radius);
            lemma_outward_bounds(offset@.y, self@.radius);
            lemma_outward_bounds(offset@.z, self@.radius);
        }
        let outward = offset.div(self.radius);
        hit_record.set_face_normal(ray, outward);
        true
    }
}

/// A rescaled offset component divided by a positive radius stays within
/// the normal bound.
proof fn lemma_outward_bounds(c: int, radius: int)
    requires
        -52_000_000_000 <= c <= 52_000_000_000,
        1 <= radius,
    ensures
        -(NORMAL_LIMIT as int) <= crate::fixed::fdiv(c, radius) <= NORMAL_LIMIT as int,
{
    assert(iabs(c * (SCALE as int)) <= (NORMAL_LIMIT as int) * iabs(radius)) by (nonlinear_arith)
        requires
            -52_000_000_000 <= c <= 52_000_000_000,
            1 <= radius,
            NORMAL_LIMIT == 60_000_000_000_000_000,
            SCALE == 1_000_000,
    ;
    lemma_tdiv_abs_le(c * (SCALE as int), radius, NORMAL_LIMIT as int);
}

} // verus!
