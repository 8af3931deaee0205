//! Exact-value tests for the fixed-point scalar and vector layers.

use raytrace::fixed::{
    fx_abs, fx_add, fx_clamp01, fx_cos_sin, fx_div, fx_from_i32, fx_from_u32, fx_mul, fx_neg,
    fx_powi, fx_sqrt, fx_sub, fx_tan, fx_trunc, isqrt, FX_LIM, FX_ONE,
};
use raytrace::vec3::{vec3_sum, Vec3};

#[test]
fn scalar_add_sub_neg() {
    assert_eq!(fx_add(FX_ONE, FX_ONE), 2 * FX_ONE);
    assert_eq!(fx_sub(FX_ONE, 3 * FX_ONE), -2 * FX_ONE);
    assert_eq!(fx_neg(5 * FX_ONE), -5 * FX_ONE);
    // saturation at the representable bound
    assert_eq!(fx_add(FX_LIM, FX_LIM), FX_LIM);
    assert_eq!(fx_sub(-FX_LIM, FX_LIM), -FX_LIM);
}

#[test]
fn scalar_mul_div_truncate_toward_zero() {
    assert_eq!(fx_mul(3 * FX_ONE, 2 * FX_ONE), 6 * FX_ONE);
    // 1.5 * 1.5 = 2.25
    assert_eq!(fx_mul(98304, 98304), 147456);
    assert_eq!(fx_div(3 * FX_ONE, 2 * FX_ONE), 98304);
    // truncation toward zero on both signs
    assert_eq!(fx_mul(-3, 3), 0);
    assert_eq!(fx_div(-FX_ONE, 3 * FX_ONE), -21845);
    assert_eq!(fx_div(FX_ONE, 3 * FX_ONE), 21845);
}

#[test]
fn scalar_sqrt_and_isqrt() {
    assert_eq!(isqrt(0), 0);
    assert_eq!(isqrt(15), 3);
    assert_eq!(isqrt(16), 4);
    assert_eq!(fx_sqrt(4 * FX_ONE), 2 * FX_ONE);
    assert_eq!(fx_sqrt(9 * FX_ONE), 3 * FX_ONE);
    // sqrt(2) in Q16.16 is 92681 (floor of 65536 * 1.41421...)
    assert_eq!(fx_sqrt(2 * FX_ONE), 92681);
}

#[test]
fn scalar_pow_clamp_abs_trunc() {
    assert_eq!(fx_powi(2 * FX_ONE, 10), 1024 * FX_ONE);
    assert_eq!(fx_powi(3 * FX_ONE, 0), FX_ONE);
    assert_eq!(fx_clamp01(-5), 0);
    assert_eq!(fx_clamp01(FX_ONE + 7), FX_ONE);
    assert_eq!(fx_clamp01(1234), 1234);
    assert_eq!(fx_abs(-42), 42);
    assert_eq!(fx_trunc(3 * FX_ONE + 123), 3);
    assert_eq!(fx_trunc(-3 * FX_ONE - 123), -3);
    assert_eq!(fx_from_i32(-7), -7 * FX_ONE);
    assert_eq!(fx_from_u32(9), 9 * FX_ONE);
}

#[test]
fn trig_recurrence_values() {
    // the CORDIC recurrence is deterministic: exact expected raw values
    let (c, s) = fx_cos_sin(0);
    assert_eq!((c, s), (65532, 3));
    // tangent of the parsed 30-degree half field of view
    assert_eq!(fx_tan(34320), 37839);
}

#[test]
fn vector_componentwise_ops() {
    let a = Vec3::new(FX_ONE, 2 * FX_ONE, -3 * FX_ONE);
    let b = Vec3::new(4 * FX_ONE, -5 * FX_ONE, 6 * FX_ONE);
    assert_eq!(a.add(b), Vec3::new(5 * FX_ONE, -3 * FX_ONE, 3 * FX_ONE));
    assert_eq!(a.sub(b), Vec3::new(-3 * FX_ONE, 7 * FX_ONE, -9 * FX_ONE));
    assert_eq!(a.neg(), Vec3::new(-FX_ONE, -2 * FX_ONE, 3 * FX_ONE));
    assert_eq!(a.scale(2 * FX_ONE), Vec3::new(2 * FX_ONE, 4 * FX_ONE, -6 * FX_ONE));
    assert_eq!(a.div_by(2 * FX_ONE), Vec3::new(32768, FX_ONE, -98304));
    assert_eq!(vec3_sum(a), 0);
}

#[test]
fn vector_products_and_length() {
    let a = Vec3::new(FX_ONE, 2 * FX_ONE, 3 * FX_ONE);
    let b = Vec3::new(4 * FX_ONE, 5 * FX_ONE, 6 * FX_ONE);
    // 1*4 + 2*5 + 3*6 = 32
    assert_eq!(a.dot(b), 32 * FX_ONE);
    // (2*6-3*5, 3*4-1*6, 1*5-2*4) = (-3, 6, -3)
    assert_eq!(a.cross(b), Vec3::new(-3 * FX_ONE, 6 * FX_ONE, -3 * FX_ONE));
    let p = Vec3::new(3 * FX_ONE, 4 * FX_ONE, 0);
    assert_eq!(p.length(), 5 * FX_ONE);
    assert_eq!(p.distance(Vec3::zero()), 5 * FX_ONE);
    let n = p.normalize();
    // (0.6, 0.8, 0) exactly
    assert_eq!(n, Vec3::new(39321, 52428, 0));
    assert_eq!(Vec3::zero().normalize(), Vec3::zero());
}

#[test]
fn vector_clamp01() {
    let v = Vec3::new(-5, FX_ONE + 9, 100);
    assert_eq!(v.clamp01(), Vec3::new(0, FX_ONE, 100));
}
