use pathtracer::fixed::{Fixed, ONE_RAW};
use pathtracer::onb::Onb;
use pathtracer::ray::Ray;
use pathtracer::sampling::{lerp, random_between, random_unit};
use pathtracer::vec3::{
    cosine_direction, cross, direction_of, disk_point, dot, random_cosine_direction,
    random_in_unit_disk,
    random_unit_vector, reflect, refract, unit_vector, Vec3,
};

fn fx(x: f64) -> Fixed {
    Fixed::from_raw((x * 4294967296.0).round() as i64)
}

fn fl(x: Fixed) -> f64 {
    x.raw as f64 / 4294967296.0
}

fn v(x: f64, y: f64, z: f64) -> Vec3 {
    Vec3::new(fx(x), fx(y), fx(z))
}

fn len(a: Vec3) -> f64 {
    (fl(a.x).powi(2) + fl(a.y).powi(2) + fl(a.z).powi(2)).sqrt()
}

fn near(a: Vec3, b: Vec3, tol: f64) -> bool {
    (fl(a.x) - fl(b.x)).abs() <= tol
        && (fl(a.y) - fl(b.y)).abs() <= tol
        && (fl(a.z) - fl(b.z)).abs() <= tol
}

#[test]
fn components_and_axes() {
    let a = v(1.0, 2.0, 3.0);
    assert_eq!(a.x(), fx(1.0));
    assert_eq!(a.y(), fx(2.0));
    assert_eq!(a.z(), fx(3.0));
    assert_eq!(a.axis(0), fx(1.0));
    assert_eq!(a.axis(1), fx(2.0));
    assert_eq!(a.axis(2), fx(3.0));
    assert_eq!(a.axis(7), fx(3.0));
    assert_eq!(Vec3::zero(), v(0.0, 0.0, 0.0));
}

#[test]
fn sums_products_and_quotients() {
    let a = v(1.0, 2.0, 3.0);
    let b = v(4.0, -5.0, 0.5);
    assert_eq!(a.add(b), v(5.0, -3.0, 3.5));
    assert_eq!(a.sub(b), v(-3.0, 7.0, 2.5));
    assert_eq!(a.mul(b), v(4.0, -10.0, 1.5));
    assert_eq!(a.neg(), v(-1.0, -2.0, -3.0));
    assert_eq!(a.scale(fx(2.0)), v(2.0, 4.0, 6.0));
    assert_eq!(a.div(fx(2.0)), v(0.5, 1.0, 1.5));
}

#[test]
fn assignments_change_in_place() {
    let mut a = v(1.0, 2.0, 3.0);
    a.add_assign(v(1.0, 1.0, 1.0));
    assert_eq!(a, v(2.0, 3.0, 4.0));
    a.mul_assign(fx(0.5));
    assert_eq!(a, v(1.0, 1.5, 2.0));
    a.div_assign(fx(0.5));
    assert_eq!(a, v(2.0, 3.0, 4.0));
}

#[test]
fn dot_cross_and_length() {
    let a = v(1.0, 2.0, 3.0);
    let b = v(4.0, -5.0, 6.0);
    assert_eq!(dot(a, b), fx(12.0));
    assert_eq!(cross(a, b), v(27.0, 6.0, -13.0));
    assert_eq!(cross(v(1.0, 0.0, 0.0), v(0.0, 1.0, 0.0)), v(0.0, 0.0, 1.0));
    assert_eq!(v(3.0, 4.0, 0.0).length_squared(), fx(25.0));
    assert_eq!(v(3.0, 4.0, 0.0).length(), fx(5.0));
    // The squared length is out of range, the length is not.
    assert_eq!(v(300000.0, 400000.0, 0.0).length_squared(), Fixed::infinity());
    assert_eq!(v(300000.0, 400000.0, 0.0).length(), fx(500000.0));
    assert_eq!(v(0.0, 0.0, -2.0).inverse(), v(0.0, 0.0, -0.5));
    assert_eq!(v(0.0, 308025.0, 0.0).inverse().y, fx(1.0).div(fx(308025.0)));
    assert_eq!(Vec3::zero().inverse(), Vec3::zero());
}

#[test]
fn unit_vector_has_length_one() {
    let u = unit_vector(v(3.0, 4.0, 0.0));
    assert_eq!(u.z, Fixed::zero());
    assert!(near(u, v(0.6, 0.8, 0.0), 1e-9));
    let w = unit_vector(v(-7.0, 2.5, 11.0));
    assert!((len(w) - 1.0).abs() < 1e-8);
}

#[test]
fn unit_vector_of_tiny_and_huge_vectors() {
    let u = unit_vector(Vec3::zero());
    assert_eq!(u, Vec3::zero());
    let w = unit_vector(Vec3::new(Fixed { raw: 1 }, Fixed::zero(), Fixed::zero()));
    assert_eq!(w, v(1.0, 0.0, 0.0));
    let far = unit_vector(v(300000.0, 0.0, -400000.0));
    assert!(near(far, v(0.6, 0.0, -0.8), 1e-9));
}

#[test]
fn near_zero_has_a_threshold() {
    assert!(Vec3::zero().near_zero());
    assert!(Vec3::new(Fixed { raw: 42 }, Fixed { raw: -42 }, Fixed::zero()).near_zero());
    assert!(!Vec3::new(Fixed { raw: 43 }, Fixed::zero(), Fixed::zero()).near_zero());
    assert!(!v(0.0, 1e-7, 0.0).near_zero());
}

#[test]
fn reflect_mirrors_in_the_plane() {
    assert_eq!(reflect(v(1.0, -1.0, 0.0), v(0.0, 1.0, 0.0)), v(1.0, 1.0, 0.0));
    assert_eq!(reflect(v(0.5, 0.25, -2.0), v(0.0, 0.0, 1.0)), v(0.5, 0.25, 2.0));
}

#[test]
fn reflect_twice_gives_the_vector_back() {
    let normals = [v(0.0, 1.0, 0.0), unit_vector(v(1.0, 2.0, -2.0)), unit_vector(v(-3.0, 0.5, 1.0))];
    let vectors = [v(1.0, -1.0, 0.0), v(0.3, 0.7, -0.2), v(-5.0, 2.0, 9.0)];
    for n in normals {
        for a in vectors {
            let back = reflect(reflect(a, n), n);
            assert!(near(back, a, 1e-7), "{:?} {:?} {:?}", a, n, back);
        }
    }
    let a = v(1.5, -2.25, 3.0);
    assert_eq!(reflect(reflect(a, v(1.0, 0.0, 0.0)), v(1.0, 0.0, 0.0)), a);
}

#[test]
fn reflect_twice_stays_within_the_proven_tolerance() {
    let mut worst = 0;
    for _ in 0..20_000 {
        let n = random_unit_vector();
        let a = Vec3::random_range(fx(-1.0), fx(1.0));
        let back = reflect(reflect(a, n), n);
        for (x, y) in [(back.x, a.x), (back.y, a.y), (back.z, a.z)] {
            let off = (x.raw - y.raw).abs();
            assert!(off <= 420, "{:?} {:?} {:?}", a, n, back);
            worst = worst.max(off);
        }
    }
    assert!(worst > 0);
}

#[test]
fn normalised_vectors_are_nearly_unit() {
    let low = (1i128 << 64) - 6 * (1i128 << 32);
    let high = (1i128 << 64) + 33 * (1i128 << 32);
    let norm = |d: Vec3| {
        (d.x.raw as i128).pow(2) + (d.y.raw as i128).pow(2) + (d.z.raw as i128).pow(2)
    };
    for _ in 0..20_000 {
        let d = random_unit_vector();
        assert!(low <= norm(d) && norm(d) <= high);
        let p = Vec3::random_range(fx(-40.0), fx(40.0));
        if p.length().raw >= (1 << 28) {
            let u = unit_vector(p);
            assert!(low <= norm(u) && norm(u) <= high);
        }
    }
}

#[test]
fn refract_follows_snell() {
    let n = v(0.0, 1.0, 0.0);
    let straight = refract(v(0.0, -1.0, 0.0), n, fx(1.0 / 1.5));
    assert!(near(straight, v(0.0, -1.0, 0.0), 1e-8));
    let incoming = unit_vector(v(1.0, -1.0, 0.0));
    let out = refract(incoming, n, fx(1.0 / 1.5));
    let sin_in = fl(incoming.x);
    let sin_out = fl(out.x) / len(out);
    assert!((sin_out - sin_in / 1.5).abs() < 1e-7);
    assert!(fl(out.y) < 0.0);
    let same = refract(incoming, n, fx(1.0));
    assert!(near(same, incoming, 1e-8));
}

#[test]
fn lerp_picks_the_fraction_of_the_way() {
    assert_eq!(lerp(fx(-1.0), fx(1.0), fx(0.25)), fx(-0.5));
    assert_eq!(lerp(fx(2.0), fx(4.0), Fixed::zero()), fx(2.0));
}

#[test]
fn random_draws_lie_in_their_ranges() {
    let mut seen_low = false;
    let mut seen_high = false;
    let mut first = random_unit();
    let mut varied = false;
    for _ in 0..2000 {
        let u = random_unit();
        assert!(u.raw >= 0 && u.raw < ONE_RAW);
        if u != first {
            varied = true;
        }
        first = u;
        if u.raw < ONE_RAW / 4 {
            seen_low = true;
        }
        if u.raw > 3 * (ONE_RAW / 4) {
            seen_high = true;
        }
        let b = random_between(fx(-3.0), fx(5.0));
        assert!(b.raw >= fx(-3.0).raw && b.raw < fx(5.0).raw);
    }
    assert!(varied && seen_low && seen_high);
}

#[test]
fn random_vectors_lie_in_their_cubes() {
    for _ in 0..500 {
        let a = Vec3::random();
        for c in [a.x, a.y, a.z] {
            assert!(c.raw >= 0 && c.raw < ONE_RAW);
        }
        let b = Vec3::random_range(fx(0.5), fx(1.0));
        for c in [b.x, b.y, b.z] {
            assert!(c.raw >= fx(0.5).raw && c.raw < ONE_RAW);
        }
    }
}

#[test]
fn direction_of_rejects_short_and_long_points() {
    assert_eq!(direction_of(v(0.0, 0.0, 0.0)), None);
    assert_eq!(direction_of(v(0.05, 0.0, 0.0)), None);
    assert_eq!(direction_of(v(0.9, 0.9, 0.0)), None);
    assert_eq!(direction_of(v(0.0, 0.5, 0.0)), Some(v(0.0, 1.0, 0.0)));
    assert_eq!(direction_of(v(-1.0, 0.0, 0.0)), Some(v(-1.0, 0.0, 0.0)));
}

#[test]
fn random_unit_vectors_have_length_one_and_no_bias() {
    let n = 100_000;
    let mut sum = [0.0f64; 3];
    for _ in 0..n {
        let d = random_unit_vector();
        assert!((len(d) - 1.0).abs() < 1e-6, "{}", len(d));
        sum[0] += fl(d.x);
        sum[1] += fl(d.y);
        sum[2] += fl(d.z);
    }
    // Each coordinate of a uniform direction has variance 1/3.
    let sigma_of_mean = (1.0 / 3.0f64 / n as f64).sqrt();
    for s in sum {
        assert!((s / n as f64).abs() < 5.0 * sigma_of_mean);
    }
}

#[test]
fn random_disk_points_lie_in_the_disk() {
    let mut far = false;
    for _ in 0..5000 {
        let p = random_in_unit_disk();
        assert_eq!(p.z, Fixed::zero());
        assert!(p.length_squared().raw < ONE_RAW);
        if len(p) > 0.9 {
            far = true;
        }
    }
    assert!(far);
}

#[test]
fn disk_point_keeps_the_points_of_the_disk() {
    assert_eq!(disk_point(fx(0.5), fx(0.5)), Some(v(0.0, 0.0, 0.0)));
    assert_eq!(disk_point(fx(0.75), fx(0.25)), Some(v(0.5, -0.5, 0.0)));
    assert_eq!(disk_point(Fixed::zero(), fx(0.5)), None);
    assert_eq!(disk_point(Fixed::zero(), Fixed::zero()), None);
    assert_eq!(disk_point(fx(0.9), fx(0.9)), None);
    let almost = Fixed { raw: ONE_RAW - 1 };
    assert_eq!(
        disk_point(almost, fx(0.5)),
        Some(Vec3::new(Fixed { raw: ONE_RAW - 2 }, Fixed::zero(), Fixed::zero()))
    );
}

#[test]
fn cosine_direction_formula() {
    let d = cosine_direction(Fixed::zero(), Fixed::zero());
    assert_eq!(d, v(0.0, 0.0, 1.0));
    let e = cosine_direction(fx(0.25), fx(0.64));
    assert!(near(e, v(0.0, 0.8, 0.6), 1e-7), "{:?}", e);
    let f = cosine_direction(fx(0.5), fx(1.0).sub(Fixed { raw: 1 }));
    assert!(near(f, v(-1.0, 0.0, 0.0), 1e-4), "{:?}", f);
}

#[test]
fn random_cosine_directions_favour_the_axis() {
    let n = 50_000;
    let mut mean_z = 0.0;
    for _ in 0..n {
        let d = random_cosine_direction();
        assert!(d.z.raw >= 0);
        assert!((len(d) - 1.0).abs() < 1e-4);
        mean_z += fl(d.z);
    }
    // The mean cosine under the cosine law is 2/3.
    assert!((mean_z / n as f64 - 2.0 / 3.0).abs() < 0.01);
}

#[test]
fn basis_is_orthonormal() {
    for n in [v(0.0, 0.0, 1.0), v(1.0, 0.0, 0.0), v(0.3, -2.0, 0.7), v(-0.95, 0.1, 0.1)] {
        let b = Onb::new(n);
        assert!(near(b.w(), unit_vector(n), 1e-9));
        assert!(fl(dot(b.u(), b.v())).abs() < 1e-8);
        assert!(fl(dot(b.u(), b.w())).abs() < 1e-8);
        assert!(fl(dot(b.v(), b.w())).abs() < 1e-8);
        assert!((len(b.u()) - 1.0).abs() < 1e-8);
        assert!((len(b.v()) - 1.0).abs() < 1e-8);
        let t = b.transform(v(0.0, 0.0, 2.0));
        assert!(near(t, b.w().scale(fx(2.0)), 1e-9));
    }
}

#[test]
fn basis_around_the_z_axis() {
    let b = Onb::new(v(0.0, 0.0, 5.0));
    assert_eq!(b.w(), v(0.0, 0.0, 1.0));
    assert_eq!(b.v(), v(0.0, 1.0, 0.0));
    assert_eq!(b.u(), v(-1.0, 0.0, 0.0));
    assert_eq!(b.transform(v(1.0, 2.0, 3.0)), v(-1.0, 2.0, 3.0));
}

#[test]
fn ray_points() {
    let r = Ray::new(v(1.0, 2.0, 3.0), v(0.0, -1.0, 0.5), fx(0.25));
    assert_eq!(r.origin(), v(1.0, 2.0, 3.0));
    assert_eq!(r.direction(), v(0.0, -1.0, 0.5));
    assert_eq!(r.time(), fx(0.25));
    assert_eq!(r.at(fx(2.0)), v(1.0, 0.0, 4.0));
    assert_eq!(r.at(Fixed::zero()), v(1.0, 2.0, 3.0));
}
