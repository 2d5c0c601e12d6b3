//! Vector and ray arithmetic over the fixed-point scalar model. Whole-unit
//! inputs are exact; square roots take the integer floor.

use raytracer::ray::Ray;
use raytracer::util::{Vec3, SCALE};

fn v(x: i64, y: i64, z: i64) -> Vec3 {
    Vec3::new(x * SCALE, y * SCALE, z * SCALE)
}

#[test]
fn at_works_for_positive_values() {
    let r = Ray::new(v(0, 0, 0), v(10, 10, 10));
    let t = 512; // one half
    let r_at_actual = v(5, 5, 5);
    assert_eq!(r_at_actual, r.at(t));
}

#[test]
fn at_works_for_negative_values() {
    let r = Ray::new(v(0, 0, 0), v(10, 10, 10));
    let t = -512;
    let r_at_actual = v(-5, -5, -5);
    assert_eq!(r_at_actual, r.at(t));
}

#[test]
fn length_squared_is_correct() {
    let a = v(2, 3, 1);
    let actual = 14 * SCALE;
    assert_eq!(a.len_squared(), actual);
}

#[test]
fn euclidean_length_is_correct() {
    let a = v(2, 3, 1);
    // The integer floor of sqrt(14) as a scalar.
    let actual = 3831;
    assert_eq!(a.len(), actual);
}

#[test]
fn unit_vector_is_correct() {
    let a = v(2, 3, 1);
    let actual_unit = Vec3::new(547, 821, 273);
    assert_eq!(a.unit_vector(), actual_unit);
}

#[test]
fn negating_vector_is_correct() {
    let a = v(2, 3, 1);
    let a_neg_actual = v(-2, -3, -1);
    assert_eq!(a.neg(), a_neg_actual);
}

#[test]
fn adding_vectors_is_correct() {
    let v1 = v(2, 3, 1);
    let v2 = Vec3::new(1024, 0, -1024);
    let actual = v(3, 3, 0);
    assert_eq!(v1.add(v2), actual);
}

#[test]
fn subtracting_vectors_is_correct() {
    let v1 = v(2, 3, 1);
    let v2 = Vec3::new(1024, 0, -1024);
    let actual = v(1, 3, 2);
    assert_eq!(v1.sub(v2), actual);
}

#[test]
fn dividing_vectors_by_scalar_is_correct() {
    let v1 = v(2, 4, 1);
    // Scaling by one half divides by the scalar two.
    let actual = Vec3::new(1024, 2048, 512);
    assert_eq!(v1.scale(512), actual);
}

#[test]
fn multiplying_vectors_by_scalar_is_correct() {
    let v1 = v(2, 3, 1);
    let actual = v(4, 6, 2);
    assert_eq!(v1.scale(2 * SCALE), actual);
}

#[test]
fn multiplying_vectors_together_is_correct() {
    let v1 = v(2, 3, 1);
    let v2 = Vec3::new(3 * SCALE, 512, -SCALE);
    let actual = Vec3::new(6 * SCALE, 1536, -SCALE);
    assert_eq!(v1.mul(v2), actual);
}

#[test]
fn dot_product_is_correct() {
    let v1 = v(2, 3, 1);
    let v2 = Vec3::new(3 * SCALE, 512, -SCALE);
    let actual = 6656; // six and a half
    assert_eq!(v1.dot(v2), actual);
}

#[test]
fn cross_product_is_correct() {
    let v1 = v(2, 3, 1);
    let v2 = Vec3::new(3 * SCALE, 512, -SCALE);
    let actual = Vec3::new(-3584, 5 * SCALE, -8 * SCALE);
    assert_eq!(Vec3::cross(v1, v2), actual);
}

#[test]
fn near_zero_detects_the_zero_vector() {
    assert!(Vec3::zero().near_zero());
    assert!(!Vec3::new(1, 0, 0).near_zero());
}

#[test]
fn random_in_range_stays_in_range() {
    let mut rng = raytracer::util::RandomSource::new(7);
    for _ in 0..100 {
        let x = rng.random_in_range(-2048, 2048);
        assert!(-2048 <= x && x <= 2048);
    }
}

#[test]
fn random_unit_vector_is_bounded() {
    let mut rng = raytracer::util::RandomSource::new(11);
    for _ in 0..50 {
        let u = Vec3::random_unit_vector(&mut rng);
        assert!(u.x.abs() <= 34816 && u.y.abs() <= 34816 && u.z.abs() <= 34816);
    }
}
