//! The per-pixel color resolver and the frame renderer.
//!
//! A hit is painted by mapping the stored unit-scale normal from the range
//! of one negative to one positive unit onto the output color range; a miss
//! is painted with a vertical white-to-sky gradient driven by the
//! normalized ray direction. Colors come out scaled to whole units in the
//! range zero to two hundred and fifty-five; `draw` truncates and saturates
//! them into bytes.

use crate::fixed::{iabs, lemma_tdiv_abs_le, tdiv, tdiv_i128, COORD_LIMIT, SCALE};
use crate::hittable::HitRecord;
use crate::hittable_list::{list_hit, list_wf, HittableList};
use crate::ray::{ray_wf, Ray, RayV};
use crate::vec3::{lemma_fmul_bound, v3_in, v_add, v_dot, v_scale, v_unit, Vec3, V3};
use vstd::prelude::*;

verus! {

/// The far plane: no intersection beyond fifty units is considered.
pub const FAR_PLANE: i64 = 50_000_000;

/// The vector of three whole units, white at unit brightness.
pub open spec fn v_one() -> V3 {
    V3 { x: SCALE as int, y: SCALE as int, z: SCALE as int }
}

/// The sky tint at the top of the background gradient.
pub open spec fn v_sky() -> V3 {
    V3 { x: 500_000, y: 700_000, z: 1_000_000 }
}

/// The color of a hit: the normal shifted up by one unit and halved, on
/// the output range, in one scaling step.
pub open spec fn normal_color(n: V3) -> V3 {
    v_scale(v_add(n, v_one()), 127_500_000)
}

/// The background for a missed ray: the direction is normalized, its
/// vertical component mapped to a blend weight, and white and sky are
/// blended, on the output range.
pub open spec fn background_color(dir: V3) -> V3 {
    let u = v_unit(dir);
    let lin = tdiv(u.y, 2) + 500_000;
    let col = v_add(v_scale(v_one(), (SCALE as int) - lin), v_scale(v_sky(), lin));
    v_scale(col, 255_000_000)
}

/// The color a ray resolves to against a scene: the normal color of the
/// nearest hit within the far plane, or the background gradient.
pub open spec fn ray_color_spec(r: RayV, objs: Seq<crate::hittable::HittableV>) -> V3 {
    match list_hit(objs, r, 0, FAR_PLANE as int) {
        Some(rec) => normal_color(rec.normal),
        None => background_color(r.direction),
    }
}

/// Resolves the color of one ray against the scene: exactly
/// `ray_color_spec`. Pure: neither the ray nor the scene is changed.
pub fn ray_color(ray: Ray, world: &HittableList) -> (r: Vec3)
    requires
        ray_wf(ray@),
        v_dot(ray@.direction, ray@.direction) >= 1,
        list_wf(world@),
    ensures
        r@ == ray_color_spec(ray@, world@),
{
    let normalized = ray.direction.unit();
    let lin_half: i128 = tdiv_i128(normalized.y as i128, 2);
    let linearized: i64 = (lin_half as i64) + 500_000;
    let one = Vec3::new(SCALE, SCALE, SCALE);

    let mut hit_record = HitRecord::new();
    if world.hit(ray, 0, FAR_PLANE, &mut hit_record) {
        proof {
            lemma_normal_color_fits(hit_record@.normal.x);
            lemma_normal_color_fits(hit_record@.normal.y);
            lemma_normal_color_fits(hit_record@.normal.z);
        }
        return hit_record.normal.add(&one).mul(127_500_000);
    }

    // Blue-white gradient over the normalized direction's height.
    proof {
        lemma_blend_fits(v_one().x, (SCALE as int) - linearized as int);
        lemma_blend_fits(v_one().y, (SCALE as int) - linearized as int);
        lemma_blend_fits(v_one().z, (SCALE as int) - linearized as int);
        lemma_blend_fits(v_sky().x, linearized as int);
        lemma_blend_fits(v_sky().y, linearized as int);
        lemma_blend_fits(v_sky().z, linearized as int);
    }
    let sky = Vec3::new(500_000, 700_000, 1_000_000);
    let col = one.mul(SCALE - linearized).add(&sky.mul(linearized));
    proof {
        lemma_output_scale_fits(col@.x);
        lemma_output_scale_fits(col@.y);
        lemma_output_scale_fits(col@.z);
    }
    col.mul(255_000_000)
}

/// A stored normal component, shifted by one unit, can be scaled onto the
/// output range without overflow.
proof fn lemma_normal_color_fits(n: int)
    by (nonlinear_arith)
    requires
        -(crate::fixed::NORMAL_LIMIT as int) <= n <= crate::fixed::NORMAL_LIMIT as int,
    ensures
        i64::MIN <= n + (SCALE as int) <= i64::MAX,
        iabs((n + (SCALE as int)) * 127_500_000) <= (i64::MAX as int) * (SCALE as int),
{
}

/// A blend weight within two units of the normalized height keeps the
/// blend products inside the multiplier's range, and the blended
/// component small.
proof fn lemma_blend_fits(c: int, w: int)
    by (nonlinear_arith)
    requires
        0 <= c <= SCALE as int,
        -3_000_000_000_000 <= w <= 3_000_000_000_000,
    ensures
        iabs(c * w) <= 3_000_000_000_000 * (SCALE as int),
        iabs(c * w) <= (i64::MAX as int) * (SCALE as int),
{
}

/// A blended component can be scaled onto the output range.
proof fn lemma_output_scale_fits(c: int)
    by (nonlinear_arith)
    requires
        -6_000_000_000_001 <= c <= 6_000_000_000_001,
    ensures
        iabs(c * 255_000_000) <= (i64::MAX as int) * (SCALE as int),
{
}

/// One output byte: the color component truncated to whole units and
/// saturated to the byte range.
pub open spec fn byte_of(c: int) -> u8 {
    let q = tdiv(c, SCALE as int);
    if q < 0 {
        0u8
    } else if q > 255 {
        255u8
    } else {
        q as u8
    }
}

/// Truncates and saturates one color component into a byte.
pub fn to_byte(c: i64) -> (r: u8)
    ensures
        r == byte_of(c as int),
{
    if c <= 0 {
        proof {
            if c < 0 {
                vstd::arithmetic::div_mod::lemma_div_pos_is_pos(-(c as int), SCALE as int);
            }
        }
        0
    } else {
        let q: u64 = (c as u64) / (SCALE as u64);
        if q > 255 {
            255
        } else {
            q as u8
        }
    }
}

/// The direction from the camera through the pixel at flat index `k` of a
/// row-major frame of width `w`.
pub open spec fn pixel_dir(p0: V3, du: V3, dv: V3, cam: V3, w: int, k: int) -> V3 {
    let x = k % w;
    let y = k / w;
    V3 {
        x: p0.x + du.x * x + dv.x * y - cam.x,
        y: p0.y + du.y * x + dv.y * y - cam.y,
        z: p0.z + du.z * x + dv.z * y - cam.z,
    }
}

/// The color of the pixel at flat index `k`: the resolved ray color, or
/// black for a direction too short to normalize.
pub open spec fn pixel_color(
    p0: V3,
    du: V3,
    dv: V3,
    cam: V3,
    objs: Seq<crate::hittable::HittableV>,
    w: int,
    k: int,
) -> V3 {
    let d = pixel_dir(p0, du, dv, cam, w, k);
    if v_dot(d, d) >= 1 {
        ray_color_spec(RayV { origin: cam, direction: d }, objs)
    } else {
        V3 { x: 0, y: 0, z: 0 }
    }
}

/// Per component: the whole sweep of pixel offsets stays inside the
/// coordinate limit.
pub open spec fn sweep_bounded(p0: V3, du: V3, dv: V3, cam: V3, w: int, h: int) -> bool {
    &&& iabs(p0.x - cam.x) + w * iabs(du.x) + h * iabs(dv.x) <= COORD_LIMIT as int
    &&& iabs(p0.y - cam.y) + w * iabs(du.y) + h * iabs(dv.y) <= COORD_LIMIT as int
    &&& iabs(p0.z - cam.z) + w * iabs(du.z) + h * iabs(dv.z) <= COORD_LIMIT as int
}

/// One component of a pixel direction stays within the coordinate limit.
proof fn lemma_pixel_component(p0c: int, duc: int, dvc: int, camc: int, w: int, h: int, x: int, y: int)
    by (nonlinear_arith)
    requires
        iabs(p0c - camc) + w * iabs(duc) + h * iabs(dvc) <= COORD_LIMIT as int,
        0 <= x < w,
        0 <= y < h,
    ensures
        iabs(duc * x) <= COORD_LIMIT as int,
        iabs(dvc * y) <= COORD_LIMIT as int,
        iabs(p0c - camc) <= COORD_LIMIT as int,
        -(COORD_LIMIT as int) <= p0c - camc + duc * x + dvc * y <= COORD_LIMIT as int,
{
}

/// Renders the whole frame: one ray through each pixel, row-major from
/// the top left, four bytes per pixel in red, green, blue, alpha order.
/// Every pixel of the result is pinned: the bytes of its resolved color,
/// truncated and saturated, with a fully opaque alpha; a pixel whose
/// direction is too short to normalize is painted black rather than read.
pub fn draw(
    frame: &mut Vec<u8>,
    width: usize,
    height: usize,
    pixel0_pos: Vec3,
    pixel_delta_u: Vec3,
    pixel_delta_v: Vec3,
    camera_center: Vec3,
    world: &HittableList,
)
    requires
        old(frame).len() == width * height * 4,
        1 <= width,
        1 <= height,
        width * height <= 16_777_216,
        v3_in(camera_center@, COORD_LIMIT as int),
        sweep_bounded(
            pixel0_pos@,
            pixel_delta_u@,
            pixel_delta_v@,
            camera_center@,
            width as int,
            height as int,
        ),
        list_wf(world@),
    ensures
        final(frame).len() == old(frame).len(),
        forall|k: int|
            0 <= k < width * height ==> {
                let c = #[trigger] pixel_color(
                    pixel0_pos@,
                    pixel_delta_u@,
                    pixel_delta_v@,
                    camera_center@,
                    world@,
                    width as int,
                    k,
                );
                &&& final(frame)@[4 * k] == byte_of(c.x)
                &&& final(frame)@[4 * k + 1] == byte_of(c.y)
                &&& final(frame)@[4 * k + 2] == byte_of(c.z)
                &&& final(frame)@[4 * k + 3] == 255u8
            },
{
    let total: usize = width * height;
    let mut k: usize = 0;
    while k < total
        invariant
            total == width * height,
            1 <= width,
            1 <= height,
            width * height <= 16_777_216,
            frame.len() == width * height * 4,
            v3_in(camera_center@, COORD_LIMIT as int),
            sweep_bounded(
                pixel0_pos@,
                pixel_delta_u@,
                pixel_delta_v@,
                camera_center@,
                width as int,
                height as int,
            ),
            list_wf(world@),
            0 <= k <= total,
            forall|j: int|
                0 <= j < k ==> {
                    let c = #[trigger] pixel_color(
                        pixel0_pos@,
                        pixel_delta_u@,
                        pixel_delta_v@,
                        camera_center@,
                        world@,
                        width as int,
                        j,
                    );
                    &&& frame@[4 * j] == byte_of(c.x)
                    &&& frame@[4 * j + 1] == byte_of(c.y)
                    &&& frame@[4 * j + 2] == byte_of(c.z)
                    &&& frame@[4 * j + 3] == 255u8
                },
        decreases total - k,
    {
        let x: usize = k % width;
        let y: usize = k / width;
        proof {
            assert(y < height && x < width && width <= 16_777_216 && height <= 16_777_216)
                by (nonlinear_arith)
                requires
                    k < width * height,
                    width * height <= 16_777_216,
                    width >= 1,
                    height >= 1,
                    y == (k as int) / (width as int),
                    x == (k as int) % (width as int),
            ;
            lemma_pixel_component(
                pixel0_pos@.x,
                pixel_delta_u@.x,
                pixel_delta_v@.x,
                camera_center@.x,
                width as int,
                height as int,
                x as int,
                y as int,
            );
            lemma_pixel_component(
                pixel0_pos@.y,
                pixel_delta_u@.y,
                pixel_delta_v@.y,
                camera_center@.y,
                width as int,
                height as int,
                x as int,
                y as int,
            );
            lemma_pixel_component(
                pixel0_pos@.z,
                pixel_delta_u@.z,
                pixel_delta_v@.z,
                camera_center@.z,
                width as int,
                height as int,
                x as int,
                y as int,
            );
        }
        let dx: i64 = (pixel0_pos.x - camera_center.x) + pixel_delta_u.x * (x as i64)
            + pixel_delta_v.x * (y as i64);
        let dy: i64 = (pixel0_pos.y - camera_center.y) + pixel_delta_u.y * (x as i64)
            + pixel_delta_v.y * (y as i64);
        let dz: i64 = (pixel0_pos.z - camera_center.z) + pixel_delta_u.z * (x as i64)
            + pixel_delta_v.z * (y as i64);
        let direction = Vec3::new(dx, dy, dz);
        proof {
            assert(direction@ == pixel_dir(
                pixel0_pos@,
                pixel_delta_u@,
                pixel_delta_v@,
                camera_center@,
                width as int,
                k as int,
            ));
        }
        let a: i64 = direction.dot(&direction);
        let (r, g, b): (u8, u8, u8) = if a >= 1 {
            let ray = Ray { origin: camera_center, direction };
            let color = ray_color(ray, world);
            (to_byte(color.x), to_byte(color.y), to_byte(color.z))
        } else {
            (0, 0, 0)
        };
        let base: usize = 4 * k;
        frame[base] = r;
        frame[base + 1] = g;
        frame[base + 2] = b;
        frame[base + 3] = 255;
        k = k + 1;
    }
}

} // verus!
