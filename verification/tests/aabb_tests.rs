use pathtracer::aabb::AABB;
use pathtracer::fixed::Fixed;
use pathtracer::interval::Interval;
use pathtracer::ray::Ray;
use pathtracer::vec3::{unit_vector, Vec3};

fn fx(x: f64) -> Fixed {
    Fixed::from_raw((x * 4294967296.0).round() as i64)
}

fn v(x: f64, y: f64, z: f64) -> Vec3 {
    Vec3::new(fx(x), fx(y), fx(z))
}

fn iv(a: f64, b: f64) -> Interval {
    Interval::new(fx(a), fx(b))
}

fn forward() -> Interval {
    Interval::new(Fixed::zero(), Fixed::infinity())
}

#[test]
fn interval_ends_and_size() {
    let i = iv(1.0, 3.5);
    assert_eq!(i.min, fx(1.0));
    assert_eq!(i.max, fx(3.5));
    assert_eq!(i.size(), fx(2.5));
    assert_eq!(Interval::empty().min, Fixed::infinity());
    assert_eq!(Interval::empty().max, Fixed::neg_infinity());
    assert_eq!(Interval::universe().min, Fixed::neg_infinity());
    assert_eq!(Interval::universe().max, Fixed::infinity());
}

#[test]
fn interval_contains_its_ends_and_surrounds_its_inside() {
    let i = iv(1.0, 3.0);
    assert!(i.contains(fx(1.0)));
    assert!(i.contains(fx(3.0)));
    assert!(i.contains(fx(2.0)));
    assert!(!i.contains(fx(0.99)));
    assert!(!i.surrounds(fx(1.0)));
    assert!(!i.surrounds(fx(3.0)));
    assert!(i.surrounds(fx(2.0)));
    assert!(!Interval::empty().contains(Fixed::zero()));
    assert!(Interval::universe().contains(fx(1e6)));
}

#[test]
fn interval_clamp_expand_and_shift() {
    let i = iv(1.0, 3.0);
    assert_eq!(i.clamp(fx(0.0)), fx(1.0));
    assert_eq!(i.clamp(fx(5.0)), fx(3.0));
    assert_eq!(i.clamp(fx(2.5)), fx(2.5));
    assert_eq!(i.expand(fx(1.0)), iv(0.5, 3.5));
    assert_eq!(i.add(fx(-2.0)), iv(-1.0, 1.0));
}

#[test]
fn interval_union() {
    assert_eq!(Interval::from_intervals(iv(1.0, 3.0), iv(2.0, 5.0)), iv(1.0, 5.0));
    assert_eq!(Interval::from_intervals(iv(1.0, 3.0), iv(-2.0, 0.0)), iv(-2.0, 3.0));
    assert_eq!(Interval::from_intervals(Interval::empty(), iv(2.0, 5.0)), iv(2.0, 5.0));
}

#[test]
fn box_from_points_ignores_the_order_of_the_corners() {
    let a = v(1.0, -2.0, 3.0);
    let b = v(-1.0, 4.0, 0.5);
    let one = AABB::from_points(a, b);
    let other = AABB::from_points(b, a);
    assert_eq!(one, other);
    assert_eq!(one.x, iv(-1.0, 1.0));
    assert_eq!(one.y, iv(-2.0, 4.0));
    assert_eq!(one.z, iv(0.5, 3.0));
}

#[test]
fn box_parts() {
    let b = AABB::from_intervals(iv(0.0, 1.0), iv(2.0, 5.0), iv(-3.0, -1.0));
    assert_eq!(*b.axis_interval(0), iv(0.0, 1.0));
    assert_eq!(*b.axis_interval(1), iv(2.0, 5.0));
    assert_eq!(*b.axis_interval(2), iv(-3.0, -1.0));
    assert_eq!(*b.axis_interval(9), iv(0.0, 1.0));
    assert_eq!(b.longest_axis(), 1);
    assert_eq!(AABB::from_intervals(iv(0.0, 9.0), iv(2.0, 5.0), iv(-3.0, -1.0)).longest_axis(), 0);
    assert_eq!(AABB::from_intervals(iv(0.0, 1.0), iv(2.0, 3.0), iv(-3.0, -1.0)).longest_axis(), 2);
    assert_eq!(AABB::from_intervals(iv(0.0, 1.0), iv(0.0, 1.0), iv(0.0, 1.0)).longest_axis(), 2);
    assert_eq!(AABB::empty().x, Interval::empty());
    assert!(b.contains(v(0.5, 2.0, -1.0)));
    assert!(!b.contains(v(0.5, 1.9, -1.0)));
    assert_eq!(
        b.translate(v(1.0, 1.0, 1.0)),
        AABB::from_intervals(iv(1.0, 2.0), iv(3.0, 6.0), iv(-2.0, 0.0))
    );
}

#[test]
fn box_union() {
    let a = AABB::from_points(v(0.0, 0.0, 0.0), v(1.0, 1.0, 1.0));
    let b = AABB::from_points(v(-1.0, 0.5, 2.0), v(0.5, 3.0, 4.0));
    let u = AABB::from_aabb(a, b);
    assert_eq!(u, AABB::from_points(v(-1.0, 0.0, 0.0), v(1.0, 3.0, 4.0)));
    assert_eq!(AABB::from_aabb(AABB::empty(), a), a);
}

#[test]
fn slab_test_hits_and_misses() {
    let b = AABB::from_points(v(-1.0, -1.0, -1.0), v(1.0, 1.0, 1.0));
    let toward = Ray::new(v(0.0, 0.0, -5.0), v(0.0, 0.0, 1.0), Fixed::zero());
    assert!(b.hit(&toward, forward()));
    let away = Ray::new(v(0.0, 0.0, -5.0), v(0.0, 0.0, -1.0), Fixed::zero());
    assert!(!b.hit(&away, forward()));
    let beside = Ray::new(v(2.0, 0.0, -5.0), v(0.0, 0.0, 1.0), Fixed::zero());
    assert!(!b.hit(&beside, forward()));
    let slanted = Ray::new(v(-3.0, -3.0, -3.0), v(1.0, 1.0, 1.0), Fixed::zero());
    assert!(b.hit(&slanted, forward()));
    assert!(!b.hit(&toward, iv(0.0, 3.5)));
    assert!(b.hit(&toward, iv(0.0, 4.5)));
    assert!(!b.hit(&toward, iv(6.0, 10.0)));
}

#[test]
fn rays_from_inside_a_box_hit_it() {
    let b = AABB::from_points(v(-1.0, 0.0, 2.0), v(1.0, 3.0, 2.5));
    let starts = [v(0.0, 1.0, 2.25), v(-0.99, 0.01, 2.01), v(0.5, 2.9, 2.4)];
    let dirs = [
        v(1.0, 0.0, 0.0), v(0.0, -1.0, 0.0), v(0.0, 0.0, 1.0), v(1.0, 1.0, 1.0), v(-0.3, 0.2, 0.9),
        v(0.0, 0.0, -1.0), v(-1.0, -1.0, -1.0),
    ];
    for p in starts {
        assert!(b.contains(p));
        for d in dirs {
            let r = Ray::new(p, unit_vector(d), Fixed::zero());
            assert!(b.hit(&r, forward()), "{:?} {:?}", p, d);
        }
    }
}

#[test]
fn a_ray_leaving_a_face_misses_the_box() {
    let b = AABB::from_points(v(0.0, 0.0, 0.0), v(1.0, 1.0, 1.0));
    let leaving = Ray::new(v(1.0, 0.5, 0.5), v(1.0, 0.0, 0.0), Fixed::zero());
    assert!(!b.hit(&leaving, forward()));
    let entering = Ray::new(v(1.0, 0.5, 0.5), v(-1.0, 0.0, 0.0), Fixed::zero());
    assert!(b.hit(&entering, forward()));
}

#[test]
fn a_flat_box_is_never_hit() {
    let flat = AABB::from_points(v(-1.0, -1.0, 0.0), v(1.0, 1.0, 0.0));
    let r = Ray::new(v(0.0, 0.0, -1.0), v(0.0, 0.0, 1.0), Fixed::zero());
    assert!(!flat.hit(&r, forward()));
}

#[test]
fn rays_along_an_axis_use_the_other_slabs() {
    let b = AABB::from_points(v(-1.0, -1.0, -1.0), v(1.0, 1.0, 1.0));
    let inside_slab = Ray::new(v(0.5, 0.5, -5.0), v(0.0, 0.0, 1.0), Fixed::zero());
    assert!(b.hit(&inside_slab, forward()));
    let outside_slab = Ray::new(v(1.5, 0.5, -5.0), v(0.0, 0.0, 1.0), Fixed::zero());
    assert!(!b.hit(&outside_slab, forward()));
}
