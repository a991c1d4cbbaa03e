//! Tests of the fixed-point arithmetic base.

use noisegrid::fx::{clamp01, cdiv64, fx_mul, fx_mul_up, isqrt, tdiv64, ONE};

#[test]
fn clamp01_bounds() {
    assert_eq!(clamp01(-5), 0);
    assert_eq!(clamp01(0), 0);
    assert_eq!(clamp01(4321), 4321);
    assert_eq!(clamp01(ONE), ONE);
    assert_eq!(clamp01(ONE + 1), ONE);
    assert_eq!(clamp01(i64::MIN + 1), 0);
}

#[test]
fn tdiv_truncates_toward_zero() {
    assert_eq!(tdiv64(7, 2), 3);
    assert_eq!(tdiv64(-7, 2), -3);
    assert_eq!(tdiv64(0, 5), 0);
    assert_eq!(tdiv64(-1, 10000), 0);
}

#[test]
fn cdiv_rounds_up() {
    assert_eq!(cdiv64(0, 7), 0);
    assert_eq!(cdiv64(1, 7), 1);
    assert_eq!(cdiv64(7, 7), 1);
    assert_eq!(cdiv64(8, 7), 2);
}

#[test]
fn fixed_products() {
    // 1.5 * 2.0 = 3.0 on the fixed-point scale.
    assert_eq!(fx_mul(15000, 20000), 30000);
    assert_eq!(fx_mul(-15000, 20000), -30000);
    // A tiny positive product rounds up to one raw unit, not to zero.
    assert_eq!(fx_mul_up(1, 1), 1);
    assert_eq!(fx_mul(1, 1), 0);
}

#[test]
fn isqrt_exact_and_floor() {
    assert_eq!(isqrt(0), 0);
    assert_eq!(isqrt(1), 1);
    assert_eq!(isqrt(2), 1);
    assert_eq!(isqrt(3), 1);
    assert_eq!(isqrt(4), 2);
    assert_eq!(isqrt(99), 9);
    assert_eq!(isqrt(100), 10);
    assert_eq!(isqrt(50_000_000), 7071);
    assert_eq!(isqrt(2_500_000_000_000_000), 50_000_000);
    assert_eq!(isqrt(u64::MAX), 0xffff_ffff);
}
