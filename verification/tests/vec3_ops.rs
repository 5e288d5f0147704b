//! Vector algebra over micro-unit fixed-point scalars: one unit is
//! 1_000_000 raw steps.

use rayquiem::vec3::Vec3;

#[test]
fn test_new_and_getters() {
    let v = Vec3::new(1_000_000, 2_000_000, 3_000_000);
    assert_eq!(v.x(), 1_000_000);
    assert_eq!(v.y(), 2_000_000);
    assert_eq!(v.z(), 3_000_000);
}

#[test]
fn test_addition() {
    let a = Vec3::new(1_000_000, 2_000_000, 3_000_000);
    let b = Vec3::new(4_000_000, 5_000_000, 6_000_000);
    let result = a.add(&b);
    assert_eq!(result.x(), 5_000_000);
    assert_eq!(result.y(), 7_000_000);
    assert_eq!(result.z(), 9_000_000);
}

#[test]
fn test_subtraction() {
    let a = Vec3::new(5_000_000, 7_000_000, 9_000_000);
    let b = Vec3::new(1_000_000, 2_000_000, 3_000_000);
    let result = a.sub(&b);
    assert_eq!(result.x(), 4_000_000);
    assert_eq!(result.y(), 5_000_000);
    assert_eq!(result.z(), 6_000_000);
}

#[test]
fn test_scalar_multiplication() {
    let v = Vec3::new(1_000_000, -2_000_000, 3_000_000);
    let result = v.mul(2_000_000);
    assert_eq!(result.x(), 2_000_000);
    assert_eq!(result.y(), -4_000_000);
    assert_eq!(result.z(), 6_000_000);
}

#[test]
fn test_scalar_division() {
    let v = Vec3::new(2_000_000, 4_000_000, 6_000_000);
    let result = v.div(2_000_000);
    assert_eq!(result.x(), 1_000_000);
    assert_eq!(result.y(), 2_000_000);
    assert_eq!(result.z(), 3_000_000);
}

#[test]
fn test_dot_product() {
    let a = Vec3::new(1_000_000, 2_000_000, 3_000_000);
    let b = Vec3::new(4_000_000, -5_000_000, 6_000_000);
    let dot = a.dot(&b);
    assert_eq!(dot, 12_000_000);
}

#[test]
fn test_cross_product() {
    let a = Vec3::new(1_000_000, 2_000_000, 3_000_000);
    let b = Vec3::new(4_000_000, 5_000_000, 6_000_000);
    let cross = a.cross(&b);
    assert_eq!(cross.x(), -3_000_000);
    assert_eq!(cross.y(), 6_000_000);
    assert_eq!(cross.z(), -3_000_000);
}

#[test]
fn test_length_and_unit() {
    let v = Vec3::new(3_000_000, 4_000_000, 0);
    assert_eq!(v.length(), 5_000_000);
    let unit = v.unit();
    assert!((unit.length() - 1_000_000).abs() < 1);
}

#[test]
fn test_negation() {
    let v = Vec3::new(1_000_000, -2_000_000, 3_000_000);
    let neg = v.neg();
    assert_eq!(neg.x(), -1_000_000);
    assert_eq!(neg.y(), 2_000_000);
    assert_eq!(neg.z(), -3_000_000);
}

#[test]
fn compound_assignment_matches_plain_operations() {
    let a = Vec3::new(1_000_000, -2_000_000, 3_500_000);
    let b = Vec3::new(-4_000_000, 5_250_000, 6_000_000);

    let mut v = a;
    v.add_assign(b);
    assert_eq!((v.x(), v.y(), v.z()), {
        let w = a.add(&b);
        (w.x(), w.y(), w.z())
    });

    let mut v = a;
    v.sub_assign(b);
    assert_eq!((v.x(), v.y(), v.z()), {
        let w = a.sub(&b);
        (w.x(), w.y(), w.z())
    });

    let mut v = a;
    v.mul_assign(1_500_000);
    assert_eq!((v.x(), v.y(), v.z()), {
        let w = a.mul(1_500_000);
        (w.x(), w.y(), w.z())
    });

    let mut v = a;
    v.div_assign(-2_000_000);
    assert_eq!((v.x(), v.y(), v.z()), {
        let w = a.div(-2_000_000);
        (w.x(), w.y(), w.z())
    });
}

#[test]
fn scalar_scaling_rounds_toward_zero() {
    // 0.7 * 0.3 is exactly 0.21; 1.5 * (-0.000003) truncates toward zero.
    let v = Vec3::new(700_000, -3, 1_000_001);
    let r = v.mul(300_000);
    assert_eq!(r.x(), 210_000);
    assert_eq!(r.y(), 0);
    assert_eq!(r.z(), 300_000);
}

#[test]
fn write_color_truncates_and_saturates() {
    let c = Vec3::new(127_500_000, 255_000_000, -1_000_000);
    let (r, g, b) = Vec3::write_color(&c);
    assert_eq!((r, g, b), (127, 255, -1));
}

#[test]
fn degrees_to_radians_matches_half_turn() {
    assert_eq!(rayquiem::common::degrees_to_radians(180_000_000), 3_141_593);
    assert_eq!(rayquiem::common::degrees_to_radians(90_000_000), 1_570_796);
    assert_eq!(rayquiem::common::degrees_to_radians(0), 0);
    assert_eq!(rayquiem::common::degrees_to_radians(-180_000_000), -3_141_593);
}
