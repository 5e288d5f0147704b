//! Intersection, aggregation and shading scenarios, in micro-units.

use rayquiem::hittable::{HitRecord, Hittable};
use rayquiem::hittable_list::HittableList;
use rayquiem::ray::Ray;
use rayquiem::render::{draw, ray_color, to_byte};
use rayquiem::sphere::{GeometryConstructionError, Sphere};
use rayquiem::vec3::Vec3;

fn unit_sphere_at_origin() -> Sphere {
    Sphere::new(Vec3::new(0, 0, 0), 1_000_000).unwrap()
}

#[test]
fn sphere_center_ray_hits_front_surface() {
    // A ray from (0, 0, 5) toward (0, 0, -1) through a unit sphere at the
    // origin strikes the front surface at z == radius.
    let sphere = unit_sphere_at_origin();
    let ray = Ray { origin: Vec3::new(0, 0, 5_000_000), direction: Vec3::new(0, 0, -1_000_000) };
    let mut rec = HitRecord::new();
    let hit = sphere.hit(ray, 0, 50_000_000, &mut rec);
    assert!(hit);
    assert_eq!(rec.t, 4_000_000);
    assert_eq!((rec.point.x(), rec.point.y(), rec.point.z()), (0, 0, 1_000_000));
    assert_eq!((rec.normal.x(), rec.normal.y(), rec.normal.z()), (0, 0, 1_000_000));
    assert!(rec.facing_front);
}

#[test]
fn sphere_miss_leaves_record_untouched() {
    // The closest approach of this ray to the center is three units,
    // beyond the unit radius: no hit, and the record keeps its blank
    // contents.
    let sphere = unit_sphere_at_origin();
    let ray = Ray { origin: Vec3::new(3_000_000, 0, 5_000_000), direction: Vec3::new(0, 0, -1_000_000) };
    let mut rec = HitRecord::new();
    let hit = sphere.hit(ray, 0, 50_000_000, &mut rec);
    assert!(!hit);
    assert_eq!(rec.t, 0);
    assert_eq!((rec.point.x(), rec.point.y(), rec.point.z()), (0, 0, 0));
    assert_eq!((rec.normal.x(), rec.normal.y(), rec.normal.z()), (0, 0, 0));
    assert!(!rec.facing_front);
}

#[test]
fn interval_excludes_a_real_intersection() {
    // The true intersection sits at t == 4; an upper bound below that
    // rejects it even though the root exists, and so does an exact bound,
    // the interval being open.
    let sphere = unit_sphere_at_origin();
    let ray = Ray { origin: Vec3::new(0, 0, 5_000_000), direction: Vec3::new(0, 0, -1_000_000) };
    let mut rec = HitRecord::new();
    assert!(!sphere.hit(ray, 0, 3_000_000, &mut rec));
    assert!(!sphere.hit(ray, 0, 4_000_000, &mut rec));
    assert!(sphere.hit(ray, 0, 4_000_001, &mut rec));
    assert_eq!(rec.t, 4_000_000);
}

#[test]
fn aggregate_returns_nearest_in_either_order() {
    // Two spheres of radius one half, one unit and two units down the
    // axis: the nearer surface sits at t == 0.5 whatever the insertion
    // order.
    let near = Sphere::new(Vec3::new(0, 0, -1_000_000), 500_000).unwrap();
    let far = Sphere::new(Vec3::new(0, 0, -2_000_000), 500_000).unwrap();
    let ray = Ray { origin: Vec3::new(0, 0, 0), direction: Vec3::new(0, 0, -1_000_000) };

    let mut first = HittableList::new();
    first.add(Hittable::Sphere(near));
    first.add(Hittable::Sphere(far));
    let mut rec_a = HitRecord::new();
    assert!(first.hit(ray, 0, 50_000_000, &mut rec_a));

    let mut second = HittableList::new();
    second.add(Hittable::Sphere(far));
    second.add(Hittable::Sphere(near));
    let mut rec_b = HitRecord::new();
    assert!(second.hit(ray, 0, 50_000_000, &mut rec_b));

    assert_eq!(rec_a.t, 500_000);
    assert_eq!(rec_a.t, rec_b.t);
    assert_eq!(
        (rec_a.point.x(), rec_a.point.y(), rec_a.point.z()),
        (rec_b.point.x(), rec_b.point.y(), rec_b.point.z())
    );
    assert_eq!(
        (rec_a.normal.x(), rec_a.normal.y(), rec_a.normal.z()),
        (rec_b.normal.x(), rec_b.normal.y(), rec_b.normal.z())
    );
    assert_eq!(rec_a.facing_front, rec_b.facing_front);
}

#[test]
fn background_gradient_boundaries() {
    let world = HittableList::new();
    // Straight up: pure sky, scaled onto the output range.
    let up = ray_color(
        Ray { origin: Vec3::new(0, 0, 0), direction: Vec3::new(0, 1_000_000, 0) },
        &world,
    );
    assert_eq!((up.x(), up.y(), up.z()), (127_500_000, 178_500_000, 255_000_000));
    // Straight down: pure white.
    let down = ray_color(
        Ray { origin: Vec3::new(0, 0, 0), direction: Vec3::new(0, -1_000_000, 0) },
        &world,
    );
    assert_eq!((down.x(), down.y(), down.z()), (255_000_000, 255_000_000, 255_000_000));
    // Horizontal: the exact midpoint blend.
    let level = ray_color(
        Ray { origin: Vec3::new(0, 0, 0), direction: Vec3::new(0, 0, -1_000_000) },
        &world,
    );
    assert_eq!((level.x(), level.y(), level.z()), (191_250_000, 216_750_000, 255_000_000));
}

#[test]
fn ray_color_paints_hit_normals() {
    // The axial hit has normal (0, 0, 1): its color is (1, 1, 2) * 127.5.
    let mut world = HittableList::new();
    world.add(Hittable::Sphere(unit_sphere_at_origin()));
    let c = ray_color(
        Ray { origin: Vec3::new(0, 0, 5_000_000), direction: Vec3::new(0, 0, -1_000_000) },
        &world,
    );
    assert_eq!((c.x(), c.y(), c.z()), (127_500_000, 127_500_000, 255_000_000));
}

#[test]
fn sphere_rejects_nonpositive_radius() {
    let zero = Sphere::new(Vec3::new(0, 0, 0), 0);
    assert_eq!(zero.unwrap_err(), GeometryConstructionError::NonPositiveRadius);
    let negative = Sphere::new(Vec3::new(0, 0, 0), -500_000);
    assert_eq!(negative.unwrap_err(), GeometryConstructionError::NonPositiveRadius);
    assert!(Sphere::new(Vec3::new(0, 0, 0), 1).is_ok());
}

#[test]
fn set_face_normal_orients_against_the_ray() {
    let ray = Ray { origin: Vec3::new(0, 0, 0), direction: Vec3::new(0, 0, -1_000_000) };
    let mut rec = HitRecord::new();
    rec.set_face_normal(ray, Vec3::new(0, 0, 1_000_000));
    assert!(rec.facing_front);
    assert_eq!(rec.normal.z(), 1_000_000);
    rec.set_face_normal(ray, Vec3::new(0, 0, -1_000_000));
    assert!(!rec.facing_front);
    assert_eq!(rec.normal.z(), 1_000_000);
}

#[test]
fn cleared_aggregate_hits_nothing() {
    let mut world = HittableList::new();
    world.add(Hittable::Sphere(unit_sphere_at_origin()));
    world.clear();
    let ray = Ray { origin: Vec3::new(0, 0, 5_000_000), direction: Vec3::new(0, 0, -1_000_000) };
    let mut rec = HitRecord::new();
    assert!(!world.hit(ray, 0, 50_000_000, &mut rec));
}

#[test]
fn to_byte_truncates_and_saturates() {
    assert_eq!(to_byte(-5_000_000), 0);
    assert_eq!(to_byte(0), 0);
    assert_eq!(to_byte(999_999), 0);
    assert_eq!(to_byte(191_250_000), 191);
    assert_eq!(to_byte(255_000_000), 255);
    assert_eq!(to_byte(300_000_000), 255);
}

#[test]
fn draw_fills_every_pixel() {
    // Two pixels, both aimed level: each gets the midpoint gradient blend
    // and an opaque alpha.
    let world = HittableList::new();
    let mut frame: Vec<u8> = vec![0; 8];
    draw(
        &mut frame,
        2,
        1,
        Vec3::new(0, 0, -1_000_000),
        Vec3::new(1_000_000, 0, 0),
        Vec3::new(0, -1_000_000, 0),
        Vec3::new(0, 0, 0),
        &world,
    );
    assert_eq!(frame[0..4], [191, 216, 255, 255]);
    // The second pixel's direction (1, 0, -1) is level too: the same
    // blend.
    assert_eq!(frame[4..8], [191, 216, 255, 255]);
}
