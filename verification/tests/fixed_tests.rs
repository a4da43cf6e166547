use pathtracer::fixed::{Fixed, MAX_RAW, ONE_RAW, PI_RAW};
use pathtracer::trig::{acos, atan2, degrees_to_radians, ln, sin_cos, tan};

fn fx(x: f64) -> Fixed {
    Fixed::from_raw((x * 4294967296.0).round() as i64)
}

fn fl(x: Fixed) -> f64 {
    x.raw as f64 / 4294967296.0
}

fn close(a: f64, b: f64, tol: f64) -> bool {
    (a - b).abs() <= tol
}

#[test]
fn one_times_one_is_one() {
    let one = Fixed::one();
    assert_eq!(one.mul(one), one);
}

#[test]
fn constants_have_their_values() {
    assert_eq!(Fixed::zero().raw, 0);
    assert_eq!(Fixed::one().raw, ONE_RAW);
    assert_eq!(Fixed::infinity().raw, MAX_RAW);
    assert_eq!(Fixed::neg_infinity().raw, -MAX_RAW);
    assert!(close(fl(Fixed { raw: PI_RAW }), std::f64::consts::PI, 1e-9));
}

#[test]
fn from_int_and_ratio_are_exact() {
    assert_eq!(Fixed::from_int(3).raw, 3 * ONE_RAW);
    assert_eq!(Fixed::from_int(-7).raw, -7 * ONE_RAW);
    assert_eq!(Fixed::from_ratio(1, 2).raw, ONE_RAW / 2);
    assert_eq!(Fixed::from_ratio(-3, 4).raw, -3 * ONE_RAW / 4);
    assert_eq!(Fixed::from_count(5).raw, 5 * ONE_RAW);
    assert_eq!(Fixed::from_count(usize::MAX).raw, MAX_RAW);
}

#[test]
fn from_raw_saturates_the_least_value() {
    assert_eq!(Fixed::from_raw(i64::MIN).raw, -MAX_RAW);
    assert_eq!(Fixed::from_raw(17).raw, 17);
}

#[test]
fn sums_and_differences_saturate() {
    assert_eq!(fx(1.5).add(fx(2.25)), fx(3.75));
    assert_eq!(fx(1.5).sub(fx(2.25)), fx(-0.75));
    assert_eq!(Fixed::infinity().add(Fixed::one()), Fixed::infinity());
    assert_eq!(Fixed::neg_infinity().sub(Fixed::one()), Fixed::neg_infinity());
    assert_eq!(Fixed { raw: i64::MIN }.neg(), Fixed::infinity());
}

#[test]
fn products_round_toward_zero() {
    assert_eq!(fx(1.5).mul(fx(-2.0)), fx(-3.0));
    assert_eq!(Fixed { raw: 1 }.mul(Fixed { raw: 1 }).raw, 0);
    assert_eq!(Fixed { raw: -1 }.mul(Fixed { raw: 1 }).raw, 0);
    assert_eq!(Fixed { raw: 3 }.mul(fx(0.5)).raw, 1);
    assert_eq!(Fixed { raw: -3 }.mul(fx(0.5)).raw, -1);
    assert_eq!(fx(100000.0).mul(fx(100000.0)), Fixed::infinity());
}

#[test]
fn quotients_round_toward_zero() {
    assert_eq!(fx(3.0).div(fx(2.0)), fx(1.5));
    assert_eq!(fx(-3.0).div(fx(2.0)), fx(-1.5));
    assert_eq!(fx(3.0).div(fx(-2.0)), fx(-1.5));
    assert_eq!(fx(-3.0).div(fx(-2.0)), fx(1.5));
    assert_eq!(Fixed { raw: 1 }.div(fx(3.0)).raw, 0);
    assert_eq!(Fixed { raw: -1 }.div(fx(3.0)).raw, 0);
}

#[test]
fn division_by_zero_saturates_by_sign() {
    assert_eq!(fx(2.0).div(Fixed::zero()), Fixed::infinity());
    assert_eq!(fx(-2.0).div(Fixed::zero()), Fixed::neg_infinity());
    assert_eq!(Fixed::zero().div(Fixed::zero()), Fixed::zero());
}

#[test]
fn square_roots_round_down() {
    assert_eq!(fx(4.0).sqrt(), fx(2.0));
    assert_eq!(fx(0.25).sqrt(), fx(0.5));
    assert_eq!(Fixed::zero().sqrt(), Fixed::zero());
    assert_eq!(fx(-1.0).sqrt(), Fixed::zero());
    let r = fx(2.0).sqrt();
    let n = 2i128 * (ONE_RAW as i128) * (ONE_RAW as i128);
    assert!((r.raw as i128) * (r.raw as i128) <= n);
    assert!((r.raw as i128 + 1) * (r.raw as i128 + 1) > n);
    assert!(close(fl(r), 2f64.sqrt(), 1e-9));
}

#[test]
fn floor_min_max_abs() {
    assert_eq!(fx(2.75).floor(), 2);
    assert_eq!(fx(-2.75).floor(), -3);
    assert_eq!(fx(-2.0).floor(), -2);
    assert_eq!(fx(1.0).min(fx(2.0)), fx(1.0));
    assert_eq!(fx(1.0).max(fx(2.0)), fx(2.0));
    assert_eq!(fx(-1.5).abs(), fx(1.5));
    assert_eq!(fx(1.5).abs(), fx(1.5));
}

#[test]
fn sine_and_cosine_follow_the_circle() {
    let mut k = -720;
    while k <= 720 {
        let a = k as f64 * std::f64::consts::PI / 180.0;
        let (s, c) = sin_cos(fx(a));
        assert!(close(fl(s), a.sin(), 1e-7), "sin {} {} {}", k, fl(s), a.sin());
        assert!(close(fl(c), a.cos(), 1e-7), "cos {} {} {}", k, fl(c), a.cos());
        k += 7;
    }
}

#[test]
fn tangent_and_degrees() {
    assert!(close(fl(tan(fx(0.5))), 0.5f64.tan(), 1e-7));
    assert!(close(fl(degrees_to_radians(fx(180.0))), std::f64::consts::PI, 1e-8));
    assert!(close(fl(tan(degrees_to_radians(fx(45.0)))), 1.0, 1e-7));
}

#[test]
fn inverse_tangent_covers_the_quadrants() {
    let pts = [
        (1.0, 0.0), (1.0, 1.0), (0.0, 1.0), (-1.0, 1.0), (-1.0, 0.0), (-1.0, -1.0), (0.0, -1.0),
        (1.0, -1.0), (0.3, 0.9), (-0.7, 0.2), (0.01, -0.99), (5.0, 0.001), (0.001, 5.0),
    ];
    for (x, y) in pts {
        let got = fl(atan2(fx(y), fx(x)));
        let want = (y as f64).atan2(x);
        assert!(close(got, want, 1e-7), "atan2({}, {}) = {} want {}", y, x, got, want);
    }
    assert_eq!(atan2(Fixed::zero(), Fixed::zero()), Fixed::zero());
}

#[test]
fn inverse_cosine_runs_from_pi_to_zero() {
    let mut k = -10;
    while k <= 10 {
        let c = k as f64 / 10.0;
        let got = fl(acos(fx(c)));
        assert!(close(got, c.acos(), 1e-4), "acos({}) = {} want {}", c, got, c.acos());
        k += 1;
    }
    assert!(close(fl(acos(fx(2.0))), 0.0, 1e-4));
}

#[test]
fn logarithm_of_fractions_and_large_numbers() {
    for x in [0.001, 0.01, 0.1, 0.25, 0.5, 0.9, 1.0, 1.5, 2.0, 10.0, 12345.0] {
        let got = fl(ln(fx(x)));
        assert!(close(got, (x as f64).ln(), 1e-6), "ln({}) = {} want {}", x, got, (x as f64).ln());
    }
    assert_eq!(ln(Fixed::zero()), Fixed::neg_infinity());
    assert_eq!(ln(fx(-1.0)), Fixed::neg_infinity());
}
