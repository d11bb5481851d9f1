//! Exact-value tests of the fixed-point scalar and vector operations.

use ray_tracing::fixed::{fix_clamp, fix_div, fix_mul, fix_sqrt, isqrt, SCALE};
use ray_tracing::vec_three::Vec3;

#[test]
fn fix_mul_truncates_toward_zero() {
    assert_eq!(fix_mul(SCALE, SCALE), SCALE);
    assert_eq!(fix_mul(3 * SCALE, 2 * SCALE), 6 * SCALE);
    // 0.5 * 0.5 = 0.25
    assert_eq!(fix_mul(32768, 32768), 16384);
    // (-0.5) * 0.5 = -0.25, truncated toward zero
    assert_eq!(fix_mul(-32768, 32768), -16384);
    assert_eq!(fix_mul(-3, 3), 0);
    assert_eq!(fix_mul(0, 123456), 0);
}

#[test]
fn fix_div_truncates_toward_zero() {
    assert_eq!(fix_div(SCALE, 2 * SCALE), 32768);
    assert_eq!(fix_div(-SCALE, 2 * SCALE), -32768);
    assert_eq!(fix_div(SCALE, -2 * SCALE), -32768);
    assert_eq!(fix_div(1, SCALE), 1);
    assert_eq!(fix_div(-1, SCALE), -1);
}

#[test]
fn isqrt_exact_and_floor() {
    assert_eq!(isqrt(0), 0);
    assert_eq!(isqrt(1), 1);
    assert_eq!(isqrt(15), 3);
    assert_eq!(isqrt(16), 4);
    assert_eq!(isqrt(1 << 30), 1 << 15);
    assert_eq!(isqrt(u64::MAX as u128), 0xffff_ffff);
}

#[test]
fn fix_sqrt_of_units() {
    assert_eq!(fix_sqrt(SCALE), SCALE);
    // sqrt(0.25) = 0.5
    assert_eq!(fix_sqrt(16384), 32768);
    // sqrt(4.0) = 2.0
    assert_eq!(fix_sqrt(4 * SCALE), 2 * SCALE);
    assert_eq!(fix_sqrt(0), 0);
}

#[test]
fn clamp_selects_bounds() {
    assert_eq!(fix_clamp(-5, 0, 10), 0);
    assert_eq!(fix_clamp(15, 0, 10), 10);
    assert_eq!(fix_clamp(7, 0, 10), 7);
}

#[test]
fn componentwise_arithmetic() {
    let a = Vec3::new(SCALE, 2 * SCALE, -SCALE);
    let b = Vec3::new(3 * SCALE, -SCALE, SCALE);
    assert_eq!(a.add(b), Vec3::new(4 * SCALE, SCALE, 0));
    assert_eq!(a.sub(b), Vec3::new(-2 * SCALE, 3 * SCALE, -2 * SCALE));
    assert_eq!(a.neg(), Vec3::new(-SCALE, -2 * SCALE, SCALE));
    assert_eq!(a.scale(2 * SCALE), Vec3::new(2 * SCALE, 4 * SCALE, -2 * SCALE));
    assert_eq!(a.mul_vec(b), Vec3::new(3 * SCALE, -2 * SCALE, -SCALE));
    assert_eq!(a.div_scale(2 * SCALE), Vec3::new(32768, SCALE, -32768));
}

#[test]
fn dot_cross_and_length() {
    let x = Vec3::new(SCALE, 0, 0);
    let y = Vec3::new(0, SCALE, 0);
    let z = Vec3::new(0, 0, SCALE);
    assert_eq!(Vec3::dot(&x, &x), SCALE);
    assert_eq!(Vec3::dot(&x, &y), 0);
    assert_eq!(Vec3::cross(&x, &y), z);
    assert_eq!(Vec3::cross(&y, &x), z.neg());

    let v = Vec3::new(3 * SCALE, 4 * SCALE, 0);
    assert_eq!(v.length_squared(), 25 * SCALE);
    assert_eq!(v.length(), 5 * SCALE);
}

#[test]
fn unit_vector_of_axis_is_exact() {
    let v = Vec3::new(7 * SCALE, 0, 0);
    assert_eq!(v.unit_vector(), Vec3::new(SCALE, 0, 0));
    let w = Vec3::new(0, -9 * SCALE, 0);
    assert_eq!(w.unit_vector(), Vec3::new(0, -SCALE, 0));
}

#[test]
fn unit_vector_has_unit_length_within_tolerance() {
    let v = Vec3::new(3 * SCALE, 4 * SCALE, 12 * SCALE);
    let u = v.unit_vector();
    let lsq = u.length_squared();
    // |u|^2 within a few ulps of 1.0
    assert!((lsq - SCALE).abs() < 16, "lsq = {lsq}");
}

#[test]
fn near_zero_is_exact_zero() {
    assert!(Vec3::zero().near_zero());
    assert!(!Vec3::new(1, 0, 0).near_zero());
    assert!(!Vec3::new(0, 0, -1).near_zero());
}

#[test]
fn reflect_mirrors_about_normal() {
    let v = Vec3::new(SCALE, -SCALE, 0);
    let n = Vec3::new(0, SCALE, 0);
    assert_eq!(Vec3::reflect(&v, &n), Vec3::new(SCALE, SCALE, 0));
}

#[test]
fn refract_straight_through_at_unit_ratio() {
    let uv = Vec3::new(0, 0, -SCALE);
    let n = Vec3::new(0, 0, SCALE);
    let out = Vec3::refract(&uv, &n, SCALE);
    assert_eq!(out, Vec3::new(0, 0, -SCALE));
}

#[test]
fn random_vec3_stays_in_range() {
    for _ in 0..100 {
        let v = Vec3::random_vec3(-SCALE, SCALE);
        assert!(-SCALE <= v.x && v.x <= SCALE);
        assert!(-SCALE <= v.y && v.y <= SCALE);
        assert!(-SCALE <= v.z && v.z <= SCALE);
    }
}

#[test]
fn random_draws_vary() {
    let mut values = Vec::new();
    for _ in 0..100 {
        values.push(ray_tracing::vec_three::random_scalar());
    }
    for v in &values {
        assert!(0 <= *v && *v < SCALE);
    }
    let first = values[0];
    assert!(values.iter().any(|v| *v != first));
}

#[test]
fn random_in_unit_sphere_is_interior_and_nonzero() {
    for _ in 0..50 {
        let p = Vec3::random_in_unit_sphere();
        let lsq = p.length_squared();
        assert!(1 <= lsq && lsq < SCALE);
    }
}

#[test]
fn random_in_unit_disk_is_flat_and_interior() {
    for _ in 0..50 {
        let p = Vec3::random_in_unit_disk();
        assert_eq!(p.z, 0);
        assert!(p.length_squared() < SCALE);
    }
}

#[test]
fn random_unit_vector_is_near_unit() {
    for _ in 0..10 {
        let u = Vec3::random_unit_vector();
        let lsq = u.length_squared();
        // normalizing a coarse sample can be off by a large rounding share
        // when the sample is short, but never by half
        assert!(SCALE / 2 <= lsq && lsq <= 2 * SCALE, "lsq = {lsq}");
    }
}
