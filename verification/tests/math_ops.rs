//! Exact values of the fixed-point scalar operations.

use rdla::math::{
    cos_fp, fx_mul, isqrt_ceil_u128, isqrt_u128, lerp, sin_fp, tdiv_i128, FP_ONE, HALF_PI_FP,
    TAU_FP,
};

#[test]
fn isqrt_exact_values() {
    assert_eq!(isqrt_u128(0), 0);
    assert_eq!(isqrt_u128(1), 1);
    assert_eq!(isqrt_u128(3), 1);
    assert_eq!(isqrt_u128(4), 2);
    assert_eq!(isqrt_u128(15), 3);
    assert_eq!(isqrt_u128(16), 4);
    assert_eq!(isqrt_u128(1 << 90), 1 << 45);
    assert_eq!(isqrt_ceil_u128(0), 0);
    assert_eq!(isqrt_ceil_u128(1), 1);
    assert_eq!(isqrt_ceil_u128(2), 2);
    assert_eq!(isqrt_ceil_u128(4), 2);
    assert_eq!(isqrt_ceil_u128(5), 3);
}

#[test]
fn tdiv_truncates_toward_zero() {
    assert_eq!(tdiv_i128(7, 2), 3);
    assert_eq!(tdiv_i128(-7, 2), -3);
    assert_eq!(tdiv_i128(6, 3), 2);
    assert_eq!(tdiv_i128(-6, 3), -2);
    assert_eq!(tdiv_i128(0, 5), 0);
}

#[test]
fn fx_mul_exact_values() {
    assert_eq!(fx_mul(FP_ONE, FP_ONE), FP_ONE);
    assert_eq!(fx_mul(2 * FP_ONE, 3 * FP_ONE), 6 * FP_ONE);
    assert_eq!(fx_mul(FP_ONE / 2, FP_ONE / 2), FP_ONE / 4);
    assert_eq!(fx_mul(-FP_ONE, FP_ONE), -FP_ONE);
}

#[test]
fn lerp_exact_values() {
    // lerp(a, b, p, n) = a + (b - a) * p / n, truncated toward zero.
    assert_eq!(lerp(0, 100, 0, 4), 0);
    assert_eq!(lerp(0, 100, 1, 4), 25);
    assert_eq!(lerp(0, 100, 3, 4), 75);
    assert_eq!(lerp(100, 0, 1, 4), 75);
    assert_eq!(lerp(50, 50, 2, 10), 50);
}

#[test]
fn trigonometry_matches_reference_within_tolerance() {
    let n = 24;
    for i in 0..n {
        let angle = (TAU_FP as i128 * i as i128 / n as i128) as i64;
        let a = angle as f64 / FP_ONE as f64;
        let s = sin_fp(angle) as f64 / FP_ONE as f64;
        let c = cos_fp(angle) as f64 / FP_ONE as f64;
        assert!((s - a.sin()).abs() < 5e-4, "sin at {}: {} vs {}", a, s, a.sin());
        assert!((c - a.cos()).abs() < 5e-4, "cos at {}: {} vs {}", a, c, a.cos());
    }
}

#[test]
fn quarter_turn_values() {
    assert_eq!(sin_fp(0), 0);
    let one = sin_fp(HALF_PI_FP - 1) as f64 / FP_ONE as f64;
    assert!((one - 1.0).abs() < 1e-3);
    let zero = cos_fp(HALF_PI_FP) as f64 / FP_ONE as f64;
    assert!(zero.abs() < 1e-3);
}
