//! Tests for the fixed-point arithmetic kernels: square root, truncating
//! multiply-divide, angle reduction and the sine approximation.

use orchard::fx::{
    clamp, cos_fx, isqrt, mul_div, reduce_angle, sdiv, sin_fx, HALF_TURN, QUARTER_TURN, SCALE,
    TURN,
};

#[test]
fn isqrt_exact_squares_and_neighbors() {
    for v in [0u64, 1, 2, 3, 4, 15, 16, 17, 255, 256, 65535, 65536, 4294967295, 4294967296] {
        let r = isqrt(v);
        assert!(r * r <= v);
        assert!((r + 1) * (r + 1) > v);
    }
    assert_eq!(isqrt(144), 12);
    assert_eq!(isqrt(143), 11);
}

#[test]
fn sdiv_truncates_toward_zero() {
    assert_eq!(sdiv(7, 2), 3);
    assert_eq!(sdiv(-7, 2), -3);
    assert_eq!(sdiv(6, 3), 2);
    assert_eq!(sdiv(-6, 3), -2);
    assert_eq!(sdiv(0, 5), 0);
}

#[test]
fn mul_div_fixed_point_products() {
    // 1.5 * 2.0 == 3.0 in raw units.
    assert_eq!(mul_div(3 * SCALE / 2, 2 * SCALE, SCALE), 3 * SCALE);
    // 0.5 * -0.5 == -0.25.
    assert_eq!(mul_div(SCALE / 2, -SCALE / 2, SCALE), -SCALE / 4);
    assert_eq!(mul_div(0, 12345, SCALE), 0);
}

#[test]
fn clamp_behaviour() {
    assert_eq!(clamp(5, 10), 5);
    assert_eq!(clamp(-50, 10), -10);
    assert_eq!(clamp(50, 10), 10);
}

#[test]
fn reduce_angle_covers_negatives() {
    assert_eq!(reduce_angle(0), 0);
    assert_eq!(reduce_angle(TURN), 0);
    assert_eq!(reduce_angle(TURN + 5), 5);
    assert_eq!(reduce_angle(-1), TURN - 1);
    assert_eq!(reduce_angle(-TURN), 0);
    assert_eq!(reduce_angle(-TURN - 7), TURN - 7);
}

#[test]
fn sine_hits_cardinal_points() {
    assert_eq!(sin_fx(0), 0);
    // A quarter turn is exactly one: Bhaskara's approximation is exact at
    // the peak.
    assert_eq!(sin_fx(QUARTER_TURN), SCALE);
    assert_eq!(sin_fx(HALF_TURN), 0);
    assert_eq!(sin_fx(HALF_TURN + QUARTER_TURN), -SCALE);
    assert_eq!(cos_fx(0), SCALE);
    assert_eq!(cos_fx(HALF_TURN), -SCALE);
}

#[test]
fn sine_stays_bounded_and_close() {
    for k in -200i64..200 {
        let a = k * 517;
        let s = sin_fx(a);
        assert!(-SCALE <= s && s <= SCALE);
        let exact = ((a as f64) / (TURN as f64) * std::f64::consts::TAU).sin();
        let approx = s as f64 / SCALE as f64;
        assert!((exact - approx).abs() < 0.003, "angle {}: {} vs {}", a, exact, approx);
    }
}
