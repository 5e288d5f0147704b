//! Hit records and the closed family of hittable objects.

use crate::fixed::{tdiv_i128, SCALE};
use crate::ray::{ray_wf, Ray, RayV};
use crate::sphere::{sphere_hit, sphere_wf, Sphere, SphereV};
use crate::vec3::{iabs_i64_product_fits, v3_in, v_dot, v_neg, Vec3, V3};
use vstd::prelude::*;

verus! {

/// The mathematical value of a `HitRecord`.
pub ghost struct RecV {
    pub point: V3,
    pub normal: V3,
    pub t: int,
    pub facing_front: bool,
}

/// The outcome of a successful ray-object intersection: the hit point, the
/// unit-scale surface normal always oriented against the incoming ray, the
/// ray parameter of the hit, and whether the outer surface was struck.
#[derive(Clone, Copy, Debug)]
pub struct HitRecord {
    pub point: Vec3,
    pub normal: Vec3,
    pub t: i64,
    pub facing_front: bool,
}

impl View for HitRecord {
    type V = RecV;

    open spec fn view(&self) -> RecV {
        RecV { point: self.point@, normal: self.normal@, t: self.t as int, facing_front: self.facing_front }
    }
}

/// The blank record handed to a query before any intersection is found.
/// All fields are zero; a zero parameter stands in for the out-of-band
/// sentinel a richer scalar type would use, and callers must not read a
/// record after a failed query in any case.
pub open spec fn rec_blank() -> RecV {
    RecV {
        point: V3 { x: 0, y: 0, z: 0 },
        normal: V3 { x: 0, y: 0, z: 0 },
        t: 0,
        facing_front: false,
    }
}

impl Default for HitRecord {
    /// The blank record.
    fn default() -> (r: HitRecord)
        ensures
            r@ == rec_blank(),
    {
        HitRecord {
            point: Vec3 { x: 0, y: 0, z: 0 },
            normal: Vec3 { x: 0, y: 0, z: 0 },
            t: 0,
            facing_front: false,
        }
    }
}

impl HitRecord {
    /// A blank record, ready to be filled by a hit query.
    pub fn new() -> (r: HitRecord)
        ensures
            r@ == rec_blank(),
    {
        HitRecord {
            point: Vec3 { x: 0, y: 0, z: 0 },
            normal: Vec3 { x: 0, y: 0, z: 0 },
            t: 0,
            facing_front: false,
        }
    }

    /// Applies the shared normal-orientation rule: the record faces front
    /// when the outward normal opposes the ray direction, and the stored
    /// normal is flipped, if needed, so that it always opposes the ray.
    pub fn set_face_normal(&mut self, ray: Ray, outward_normal: Vec3)
        requires
            ray_wf(ray@),
            outward_normal@.x > i64::MIN,
            outward_normal@.y > i64::MIN,
            outward_normal@.z > i64::MIN,
        ensures
            final(self)@.facing_front == (v_dot(ray@.direction, outward_normal@) < 0),
            final(self)@.normal == if v_dot(ray@.direction, outward_normal@) < 0 {
                outward_normal@
            } else {
                v_neg(outward_normal@)
            },
            final(self)@.point == old(self)@.point,
            final(self)@.t == old(self)@.t,
    {
        proof {
            iabs_i64_product_fits(ray@.direction.x, outward_normal@.x);
            iabs_i64_product_fits(ray@.direction.y, outward_normal@.y);
            iabs_i64_product_fits(ray@.direction.z, outward_normal@.z);
        }
        let s: i128 = (ray.direction.x as i128) * (outward_normal.x as i128) + (
        ray.direction.y as i128) * (outward_normal.y as i128) + (ray.direction.z as i128) * (
        outward_normal.z as i128);
        let d: i128 = tdiv_i128(s, SCALE as i128);
        self.facing_front = d < 0;
        self.normal = if self.facing_front {
            outward_normal
        } else {
            outward_normal.neg()
        };
    }
}

/// A scene object a ray can strike: the closed family of primitives.
pub enum Hittable {
    Sphere(Sphere),
}

/// The mathematical value of a `Hittable`.
pub ghost enum HittableV {
    Sphere(SphereV),
}

impl View for Hittable {
    type V = HittableV;

    open spec fn view(&self) -> HittableV {
        match *self {
            Hittable::Sphere(s) => HittableV::Sphere(s@),
        }
    }
}

/// Well-formedness of an object: that of its primitive.
pub open spec fn object_wf(o: HittableV) -> bool {
    match o {
        HittableV::Sphere(s) => sphere_wf(s),
    }
}

/// The nearest intersection the object itself offers strictly inside
/// `(t_min, t_max)`, if any.
pub open spec fn object_hit(o: HittableV, r: RayV, t_min: int, t_max: int) -> Option<RecV> {
    match o {
        HittableV::Sphere(s) => sphere_hit(s, r, t_min, t_max),
    }
}

impl Hittable {
    /// Tests the ray against this object inside the open interval
    /// `(t_min, t_max)`. Returns true and fills the record with the
    /// nearest acceptable intersection, or returns false and leaves the
    /// record untouched.
    pub fn hit(&self, ray: Ray, t_min: i64, t_max: i64, hit_record: &mut HitRecord) -> (res: bool)
        requires
            object_wf(self@),
            ray_wf(ray@),
            v_dot(ray@.direction, ray@.direction) >= 1,
            -crate::fixed::T_LIMIT <= t_min,
            t_max <= crate::fixed::T_LIMIT,
        ensures
            res == object_hit(self@, ray@, t_min as int, t_max as int) is Some,
            res ==> object_hit(self@, ray@, t_min as int, t_max as int) == Some(
                final(hit_record)@,
            ),
            !res ==> *final(hit_record) == *old(hit_record),
            res ==> t_min < final(hit_record)@.t < t_max,
            res ==> v3_in(final(hit_record)@.normal, crate::fixed::NORMAL_LIMIT as int),
    {
        match self {
            Hittable::Sphere(s) => s.hit(ray, t_min, t_max, hit_record),
        }
    }
}

} // verus!
