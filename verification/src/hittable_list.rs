//! An aggregate of hittable objects resolving the closest hit.
//!
//! The query walks the members with a shrinking upper bound: each member is
//! asked for a hit strictly nearer than the best one so far, so the final
//! record is the nearest intersection any member offers. `list_hit` is the
//! exact specification of that walk, member order included; the
//! order-independence of the outcome is proved in `laws`.

use crate::fixed::{NORMAL_LIMIT, T_LIMIT};
use crate::hittable::{object_hit, object_wf, HitRecord, Hittable, HittableV, RecV};
use crate::ray::{ray_wf, Ray, RayV};
use crate::vec3::{v3_in, v_dot};
use vstd::prelude::*;

verus! {

/// The walk of the members, in order: each is queried with the interval
/// shrunk to the best parameter found among the earlier members.
pub open spec fn list_hit(objs: Seq<HittableV>, r: RayV, t_min: int, t_max: int) -> Option<RecV>
    decreases objs.len(),
{
    if objs.len() == 0 {
        None
    } else {
        let prev = list_hit(objs.drop_last(), r, t_min, t_max);
        let bound = match prev {
            Some(p) => p.t,
            None => t_max,
        };
        match object_hit(objs.last(), r, t_min, bound) {
            Some(h) => Some(h),
            None => prev,
        }
    }
}

/// Every member is well-formed.
pub open spec fn list_wf(objs: Seq<HittableV>) -> bool {
    forall|i: int| 0 <= i < objs.len() ==> object_wf(#[trigger] objs[i])
}

/// An ordered collection of owned scene objects, built once per scene and
/// queried once per ray.
pub struct HittableList {
    pub objects: Vec<Hittable>,
}

impl View for HittableList {
    type V = Seq<HittableV>;

    open spec fn view(&self) -> Seq<HittableV> {
        self.objects@.map_values(|o: Hittable| o@)
    }
}

impl HittableList {
    /// An empty aggregate.
    pub fn new() -> (r: HittableList)
        ensures
            r@.len() == 0,
    {
        HittableList { objects: Vec::<Hittable>::new() }
    }

    /// Takes ownership of one more object, appended after the members
    /// already held.
    pub fn add(&mut self, object: Hittable)
        requires
            object_wf(object@),
        ensures
            final(self)@ == old(self)@.push(object@),
            list_wf(old(self)@) ==> list_wf(final(self)@),
    {
        self.objects.push(object);
        proof {
            assert(final(self)@ =~= old(self)@.push(object@));
            if list_wf(old(self)@) {
                assert forall|i: int| 0 <= i < final(self)@.len() implies object_wf(
                    #[trigger] final(self)@[i],
                ) by {
                    if i < old(self)@.len() {
                        assert(final(self)@[i] == old(self)@[i]);
                    }
                }
            }
        }
    }

    /// Removes every member.
    pub fn clear(&mut self)
        ensures
            final(self)@.len() == 0,
    {
        self.objects.clear();
    }

    /// Tests the ray against every member inside the open interval
    /// `(t_min, t_max)` and reports the nearest hit among them: exactly
    /// `list_hit`. On success the record holds that nearest intersection;
    /// on failure it is left untouched.
    pub fn hit(&self, ray: Ray, t_min: i64, t_max: i64, hit_record: &mut HitRecord) -> (res: bool)
        requires
            list_wf(self@),
            ray_wf(ray@),
            v_dot(ray@.direction, ray@.direction) >= 1,
            -T_LIMIT <= t_min,
            t_max <= T_LIMIT,
        ensures
            res == list_hit(self@, ray@, t_min as int, t_max as int) is Some,
            res ==> list_hit(self@, ray@, t_min as int, t_max as int) == Some(
                final(hit_record)@,
            ),
            !res ==> *final(hit_record) == *old(hit_record),
            res ==> t_min < final(hit_record)@.t < t_max,
            res ==> v3_in(final(hit_record)@.normal, NORMAL_LIMIT as int),
    {
        let mut hit_anything = false;
        let mut closest_time: i64 = t_max;
        let mut temp_record = HitRecord::new();
        let n = self.objects.len();
        let mut i: usize = 0;
        while i < n
            invariant
                0 <= i <= n,
                n == self.objects.len(),
                list_wf(self@),
                ray_wf(ray@),
                v_dot(ray@.direction, ray@.direction) >= 1,
                -T_LIMIT <= t_min,
                t_max <= T_LIMIT,
                hit_anything == list_hit(self@.take(i as int), ray@, t_min as int, t_max as int)
                    is Some,
                hit_anything ==> list_hit(self@.take(i as int), ray@, t_min as int, t_max as int)
                    == Some(hit_record@),
                !hit_anything ==> *hit_record == *old(hit_record),
                closest_time == if hit_anything {
                    hit_record@.t
                } else {
                    t_max as int
                },
                hit_anything ==> t_min < hit_record@.t < t_max,
                hit_anything ==> v3_in(hit_record@.normal, NORMAL_LIMIT as int),
            decreases n - i,
        {
            proof {
                assert(self@.take(i as int + 1).drop_last() =~= self@.take(i as int));
                assert(self@.take(i as int + 1).last() == self@[i as int]);
                assert(object_wf(self@[i as int]));
            }
            let object = &self.objects[i];
            if object.hit(ray, t_min, closest_time, &mut temp_record) {
                hit_anything = true;
                closest_time = temp_record.t;
                *hit_record = temp_record;
            }
            i = i + 1;
        }
        proof {
            assert(self@.take(n as int) =~= self@);
        }
        hit_anything
    }
}

} // verus!
