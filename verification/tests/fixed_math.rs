//! Exact values of the fixed-point arithmetic helpers.

use asteroids_core::fixed::{cos_milli, isqrt64, mul_div, mul_milli, norm360, sin_milli,
    wrap_coord};

#[test]
fn sine_cardinal_points() {
    assert_eq!(sin_milli(0), 0);
    assert_eq!(sin_milli(90_000), 1000);
    assert_eq!(sin_milli(180_000), 0);
    assert_eq!(sin_milli(270_000), -1000);
}

#[test]
fn sine_thirty_degrees_is_half() {
    assert_eq!(sin_milli(30_000), 500);
    assert_eq!(sin_milli(150_000), 500);
    assert_eq!(sin_milli(210_000), -500);
}

#[test]
fn cosine_cardinal_points() {
    assert_eq!(cos_milli(0), 1000);
    assert_eq!(cos_milli(90_000), 0);
    assert_eq!(cos_milli(180_000), -1000);
    assert_eq!(cos_milli(270_000), 0);
}

#[test]
fn sine_bounded_everywhere() {
    let mut d: i64 = 0;
    while d < 360_000 {
        let s = sin_milli(d);
        let c = cos_milli(d);
        assert!((-1000..=1000).contains(&s));
        assert!((-1000..=1000).contains(&c));
        d += 1_000;
    }
}

#[test]
fn integer_square_root() {
    assert_eq!(isqrt64(0), 0);
    assert_eq!(isqrt64(15), 3);
    assert_eq!(isqrt64(16), 4);
    assert_eq!(isqrt64(24_502_500), 4950);
    assert_eq!(isqrt64(0xffff_ffff), 65535);
}

#[test]
fn scaling_truncates_toward_zero() {
    assert_eq!(mul_div(1000, 95, 100), 950);
    assert_eq!(mul_div(-1000, 95, 100), -950);
    assert_eq!(mul_div(-7, 1, 2), -3);
    assert_eq!(mul_div(7, 1, 2), 3);
}

#[test]
fn milli_products() {
    assert_eq!(mul_milli(4000, 1000), 4000);
    assert_eq!(mul_milli(4000, -500), -2000);
    assert_eq!(mul_milli(6000, 1000), 6000);
    assert_eq!(mul_milli(-3, 500), -1);
}

#[test]
fn angle_normalization() {
    assert_eq!(norm360(-2_500), 357_500);
    assert_eq!(norm360(362_500), 2_500);
    assert_eq!(norm360(0), 0);
    assert_eq!(norm360(359_999), 359_999);
}

#[test]
fn coordinate_wrapping() {
    assert_eq!(wrap_coord(800_200, 800_000), 200);
    assert_eq!(wrap_coord(-5, 800_000), 799_995);
    assert_eq!(wrap_coord(0, 800_000), 0);
    assert_eq!(wrap_coord(799_999, 800_000), 799_999);
}
