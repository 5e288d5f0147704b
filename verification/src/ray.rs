//! Rays: parametric lines cast from the camera through the scene.

use crate::fixed::{lemma_tdiv_abs_le, COORD_LIMIT, SCALE, T_LIMIT};
use crate::vec3::{lemma_fmul_bound, v3_in, v_add, v_scale, Vec3, V3};
use vstd::prelude::*;

verus! {

/// The mathematical value of a `Ray`.
pub ghost struct RayV {
    pub origin: V3,
    pub direction: V3,
}

/// A parametric line: the point at parameter `t` is
/// `origin + direction * t`. The direction need not have unit length.
#[derive(Clone, Copy, Debug)]
pub struct Ray {
    pub origin: Vec3,
    pub direction: Vec3,
}

impl View for Ray {
    type V = RayV;

    open spec fn view(&self) -> RayV {
        RayV { origin: self.origin@, direction: self.direction@ }
    }
}

/// Origin and direction lie within the coordinate limit.
pub open spec fn ray_wf(r: RayV) -> bool {
    v3_in(r.origin, COORD_LIMIT as int) && v3_in(r.direction, COORD_LIMIT as int)
}

/// The point a ray reaches at parameter `t`.
pub open spec fn ray_at(r: RayV, t: int) -> V3 {
    v_add(r.origin, v_scale(r.direction, t))
}

impl Ray {
    /// The point at parameter `t` along the ray; pure and total over the
    /// accepted parameter range.
    pub fn at(&self, t: i64) -> (r: Vec3)
        requires
            ray_wf(self@),
            -T_LIMIT <= t <= T_LIMIT,
        ensures
            r@ == ray_at(self@, t as int),
            v3_in(r@, 51_000_000_000),
    {
        proof {
            lemma_at_component(self@.direction.x, t as int);
            lemma_at_component(self@.direction.y, t as int);
            lemma_at_component(self@.direction.z, t as int);
        }
        let step = self.direction.mul(t);
        self.origin.add(&step)
    }
}

/// The scaled direction component stays within fifty thousand units.
proof fn lemma_at_component(d: int, t: int)
    requires
        -(COORD_LIMIT as int) <= d <= COORD_LIMIT as int,
        -(T_LIMIT as int) <= t <= T_LIMIT as int,
    ensures
        crate::fixed::iabs(d * t) <= 50_000_000_000 * (SCALE as int),
        -50_000_000_000 <= crate::fixed::fmul(d, t) <= 50_000_000_000,
{
    assert(crate::fixed::iabs(d * t) <= 50_000_000_000 * (SCALE as int)) by (nonlinear_arith)
        requires
            -(COORD_LIMIT as int) <= d <= COORD_LIMIT as int,
            -(T_LIMIT as int) <= t <= T_LIMIT as int,
            COORD_LIMIT == 1_000_000_000,
            T_LIMIT == 50_000_000,
            SCALE == 1_000_000,
    ;
    lemma_fmul_bound(d, t, 50_000_000_000);
}

} // verus!
