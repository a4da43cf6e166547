use pathtracer::aabb::{AABB, BOX_PADDING_RAW};
use pathtracer::bvh::{sort_by_key, BVHNode};
use pathtracer::constant_medium::ConstantMedium;
use pathtracer::fixed::{Fixed, ONE_RAW};
use pathtracer::hit_record::{face_normal, front_face, HitRecord};
use pathtracer::hittable::Hittable;
use pathtracer::hittable_list::HittableList;
use pathtracer::interval::Interval;
use pathtracer::material::{Lambertian, Material, Metal};
use pathtracer::obj_loader::{load_obj, Mesh, MeshError};
use pathtracer::quad::{make_box, Quad};
use pathtracer::ray::Ray;
use pathtracer::shown::{axis_holds, holds_point};
use pathtracer::sphere::{get_sphere_uv, Sphere};
use pathtracer::transform::{turn, turn_back, RotateY, Translate};
use pathtracer::trig::{degrees_to_radians, sin_cos};
use pathtracer::triangle::Triangle;
use pathtracer::vec3::{dot, unit_vector, Vec3};
use std::sync::Arc;

fn fx(x: f64) -> Fixed {
    Fixed::from_raw((x * 4294967296.0).round() as i64)
}

fn fl(x: Fixed) -> f64 {
    x.raw as f64 / 4294967296.0
}

fn v(x: f64, y: f64, z: f64) -> Vec3 {
    Vec3::new(fx(x), fx(y), fx(z))
}

fn near(a: Vec3, b: Vec3, tol: f64) -> bool {
    (fl(a.x) - fl(b.x)).abs() <= tol
        && (fl(a.y) - fl(b.y)).abs() <= tol
        && (fl(a.z) - fl(b.z)).abs() <= tol
}

fn grey() -> Arc<Material> {
    Arc::new(Material::Lambertian(Lambertian::new(v(0.5, 0.5, 0.5))))
}

fn forward() -> Interval {
    Interval::new(fx(0.001), Fixed::infinity())
}

fn ray(o: Vec3, d: Vec3) -> Ray {
    Ray::new(o, d, Fixed::zero())
}

fn time_of(h: &Option<HitRecord>) -> Option<Fixed> {
    match h {
        Some(rec) => Some(rec.t),
        None => None,
    }
}

#[test]
fn face_normal_turns_against_the_ray() {
    let d = v(0.0, 0.0, -1.0);
    assert!(front_face(d, v(0.0, 0.0, 1.0)));
    assert!(!front_face(d, v(0.0, 0.0, -1.0)));
    assert_eq!(face_normal(d, v(0.0, 0.0, 1.0)), v(0.0, 0.0, 1.0));
    assert_eq!(face_normal(d, v(0.0, 0.0, -1.0)), v(0.0, 0.0, 1.0));
}

#[test]
fn hit_record_keeps_its_parts() {
    let m = Material::Metal(Metal::new(v(1.0, 1.0, 1.0), Fixed::zero()));
    let rec = HitRecord::new(v(1.0, 2.0, 3.0), v(0.0, 1.0, 0.0), &m, fx(2.5), fx(0.25), fx(0.75), true);
    assert_eq!(rec.p, v(1.0, 2.0, 3.0));
    assert_eq!(rec.normal, v(0.0, 1.0, 0.0));
    assert_eq!(rec.t, fx(2.5));
    assert_eq!(rec.u, fx(0.25));
    assert_eq!(rec.v, fx(0.75));
    assert!(rec.front_face);
}

#[test]
fn sphere_is_hit_at_its_near_side() {
    let s = Sphere::new(v(0.0, 0.0, -5.0), fx(1.0), grey());
    let r = ray(v(0.0, 0.0, 0.0), v(0.0, 0.0, -1.0));
    let rec = s.hit(&r, forward()).unwrap();
    assert_eq!(rec.t, fx(4.0));
    assert_eq!(rec.p, v(0.0, 0.0, -4.0));
    assert_eq!(rec.normal, v(0.0, 0.0, 1.0));
    assert!(rec.front_face);
}

#[test]
fn sphere_is_hit_from_inside_at_its_far_side() {
    let s = Sphere::new(v(0.0, 0.0, 0.0), fx(2.0), grey());
    let r = ray(v(0.0, 0.0, 0.0), v(1.0, 0.0, 0.0));
    let rec = s.hit(&r, forward()).unwrap();
    assert_eq!(rec.t, fx(2.0));
    assert_eq!(rec.normal, v(-1.0, 0.0, 0.0));
    assert!(!rec.front_face);
}

#[test]
fn sphere_misses() {
    let s = Sphere::new(v(0.0, 0.0, -5.0), fx(1.0), grey());
    assert!(s.hit(&ray(v(0.0, 2.0, 0.0), v(0.0, 0.0, -1.0)), forward()).is_none());
    assert!(s.hit(&ray(v(0.0, 0.0, 0.0), v(0.0, 0.0, 1.0)), forward()).is_none());
    let r = ray(v(0.0, 0.0, 0.0), v(0.0, 0.0, -1.0));
    assert!(s.hit(&r, Interval::new(fx(0.001), fx(3.9))).is_none());
    assert!(s.hit(&r, Interval::new(fx(6.5), fx(100.0))).is_none());
    let far = s.hit(&r, Interval::new(fx(4.5), fx(100.0))).unwrap();
    assert_eq!(far.t, fx(6.0));
    // The ends of the window are excluded.
    assert!(s.hit(&r, Interval::new(fx(4.0), fx(6.0))).is_none());
}

#[test]
fn sphere_radius_is_never_negative() {
    let s = Sphere::new(v(0.0, 0.0, 0.0), fx(-3.0), grey());
    assert_eq!(s.radius, Fixed::zero());
    assert_eq!(s.bbox, AABB::from_points(v(0.0, 0.0, 0.0), v(0.0, 0.0, 0.0)).padded());
}

#[test]
fn sphere_box_holds_it() {
    let s = Sphere::new(v(1.0, 2.0, 3.0), fx(0.5), grey());
    assert_eq!(s.bbox, AABB::from_points(v(0.5, 1.5, 2.5), v(1.5, 2.5, 3.5)).padded());
    let m = Sphere::new_moving(v(0.0, 0.0, 0.0), v(2.0, 0.0, 0.0), fx(1.0), grey());
    assert_eq!(m.bbox, AABB::from_points(v(-1.0, -1.0, -1.0), v(3.0, 1.0, 1.0)).padded());
}

#[test]
fn moving_sphere_is_where_the_shutter_time_puts_it() {
    let m = Sphere::new_moving(v(0.0, 0.0, -5.0), v(4.0, 0.0, -5.0), fx(1.0), grey());
    let early = Ray::new(v(0.0, 0.0, 0.0), v(0.0, 0.0, -1.0), Fixed::zero());
    assert_eq!(m.hit(&early, forward()).unwrap().t, fx(4.0));
    let late = Ray::new(v(0.0, 0.0, 0.0), v(0.0, 0.0, -1.0), fx(1.0));
    assert!(m.hit(&late, forward()).is_none());
    let late_aimed = Ray::new(v(4.0, 0.0, 0.0), v(0.0, 0.0, -1.0), fx(1.0));
    assert_eq!(m.hit(&late_aimed, forward()).unwrap().t, fx(4.0));
    let half = Ray::new(v(2.0, 0.0, 0.0), v(0.0, 0.0, -1.0), fx(0.5));
    assert_eq!(m.hit(&half, forward()).unwrap().t, fx(4.0));
}

#[test]
fn sphere_hits_lie_in_the_window_on_the_surface_against_the_ray() {
    let c = v(0.3, -0.2, -4.0);
    let radius = 1.25;
    let s = Sphere::new(c, fx(radius), grey());
    let mut hits = 0;
    for i in -10..=10 {
        for j in -10..=10 {
            let d = v(i as f64 * 0.04, j as f64 * 0.04, -1.0);
            let r = ray(v(0.0, 0.0, 0.0), d);
            let w = forward();
            if let Some(rec) = s.hit(&r, w) {
                hits += 1;
                assert!(w.min.raw < rec.t.raw && rec.t.raw < w.max.raw);
                assert!(dot(r.direction, rec.normal).raw <= 0);
                let off = rec.p.sub(c);
                let dist = (fl(off.x).powi(2) + fl(off.y).powi(2) + fl(off.z).powi(2)).sqrt();
                assert!((dist - radius).abs() <= 1e-6 * radius, "{}", dist);
                assert!(rec.u.raw >= 0 && rec.u.raw <= ONE_RAW);
                assert!(rec.v.raw >= 0 && rec.v.raw <= ONE_RAW);
            }
        }
    }
    assert!(hits > 100);
}

fn squared_gap(p: Vec3, c: Vec3, radius: Fixed) -> i128 {
    let off = p.sub(c);
    let square = |x: Fixed| (x.raw as i128) * (x.raw as i128);
    square(off.x) + square(off.y) + square(off.z) - square(radius)
}

#[test]
fn sphere_hits_within_reach_keep_the_squared_radius() {
    let tolerance = 2400 * (ONE_RAW as i128);
    let centres = [v(0.3, -0.2, -4.0), v(-3.5, 3.0, 2.0), v(0.0, 0.0, 0.0)];
    let radii = [1.25, 0.5, 4.0, 0.001];
    let origins = [v(0.0, 0.0, 0.0), v(4.0, -4.0, 4.0), v(-1.0, 2.5, -3.0)];
    let mut hits = 0;
    for c in centres {
        for radius in radii {
            let s = Sphere::new(c, fx(radius), grey());
            for o in origins {
                for i in -12..=12 {
                    for j in -12..=12 {
                        let aim = v(i as f64 * 0.11, j as f64 * 0.13, 0.017 * (i + j) as f64);
                        let to = c.add(aim).sub(o);
                        let d = unit_vector(to).scale(fx(0.5 + 0.06 * (i + 12) as f64));
                        let r = ray(o, d);
                        if let Some(rec) = s.hit(&r, forward()) {
                            if rec.t.raw.abs() <= 16 * ONE_RAW {
                                hits += 1;
                                let gap = squared_gap(rec.p, c, fx(radius));
                                assert!(gap.abs() <= tolerance, "{}", gap);
                                if radius >= 1.0 {
                                    let rr = (fx(radius).raw as i128) * (fx(radius).raw as i128);
                                    assert!(1_000_000 * gap.abs() <= rr);
                                }
                            }
                        }
                    }
                }
            }
        }
    }
    assert!(hits > 1000, "{}", hits);
}

#[test]
fn sphere_hits_in_large_scenes_keep_the_squared_radius() {
    // scale 256: centres and origins within 1024, radii up to 1024
    let scale: i128 = 256;
    let tolerance = 2400 * scale * scale * (ONE_RAW as i128);
    let spheres = [
        (v(0.0, -1000.0, 0.0), 1000.0),
        (v(278.0, 278.0, -400.0), 100.0),
        (v(-500.0, 300.0, 555.0), 256.0),
    ];
    let origins = [v(278.0, 278.0, -800.0), v(0.0, 1.0, 3.0), v(900.0, -20.0, 1000.0)];
    let mut hits = 0;
    for (c, radius) in spheres {
        let s = Sphere::new(c, fx(radius), grey());
        for o in origins {
            for i in -12..=12 {
                for j in -12..=12 {
                    let aim = v(i as f64 * 0.08 * radius, j as f64 * 0.08 * radius, 0.0);
                    let d = unit_vector(c.add(aim).sub(o));
                    let r = ray(o, d);
                    if let Some(rec) = s.hit(&r, forward()) {
                        if rec.t.raw.abs() <= 16 * 256 * ONE_RAW {
                            hits += 1;
                            let gap = squared_gap(rec.p, c, fx(radius));
                            assert!(gap.abs() <= tolerance, "{}", gap);
                            if radius >= 256.0 {
                                let rr = (fx(radius).raw as i128) * (fx(radius).raw as i128);
                                assert!(1_000_000 * gap.abs() <= rr);
                            }
                        }
                    }
                }
            }
        }
    }
    assert!(hits > 1000, "{}", hits);
}

#[test]
fn a_small_sphere_far_away_is_hit_less_exactly() {
    let c = v(300.0, 400.0, -1000.0);
    let radius = fx(0.01);
    let s = Sphere::new(c, radius, grey());
    let r = ray(v(0.0, 0.0, 0.0), unit_vector(c));
    let rec = s.hit(&r, forward()).unwrap();
    let gap = squared_gap(rec.p, c, radius);
    let rr = (radius.raw as i128) * (radius.raw as i128);
    assert!(1_000_000 * gap.abs() > 2 * rr, "{} {}", gap, rr);
}

#[test]
fn sphere_surface_coordinates() {
    let close = |a: (Fixed, Fixed), u: f64, w: f64| {
        (fl(a.0) - u).abs() < 1e-4 && (fl(a.1) - w).abs() < 1e-4
    };
    assert!(close(get_sphere_uv(v(1.0, 0.0, 0.0)), 0.5, 0.5));
    assert!(close(get_sphere_uv(v(0.0, 1.0, 0.0)), 0.5, 1.0));
    assert!(close(get_sphere_uv(v(0.0, 0.0, 1.0)), 0.25, 0.5));
    assert!(close(get_sphere_uv(v(0.0, -1.0, 0.0)), 0.5, 0.0));
    assert!(close(get_sphere_uv(v(0.0, 0.0, -1.0)), 0.75, 0.5));
    let edge = get_sphere_uv(v(-1.0, 0.0, 0.0));
    assert!(fl(edge.0) < 1e-4 || fl(edge.0) > 1.0 - 1e-4);
}

#[test]
fn quad_is_hit_inside_and_missed_outside() {
    let q = Quad::new(v(-1.0, -1.0, -3.0), v(2.0, 0.0, 0.0), v(0.0, 2.0, 0.0), grey());
    assert_eq!(q.normal, v(0.0, 0.0, 1.0));
    assert_eq!(q.d, fx(-3.0));
    assert_eq!(q.area, fx(4.0));
    assert_eq!(q.w, v(0.0, 0.0, 0.25));
    let rec = q.hit(&ray(v(0.0, 0.5, 0.0), v(0.0, 0.0, -1.0)), forward()).unwrap();
    assert_eq!(rec.t, fx(3.0));
    assert_eq!(rec.p, v(0.0, 0.5, -3.0));
    assert_eq!(rec.u, fx(0.5));
    assert_eq!(rec.v, fx(0.75));
    assert_eq!(rec.normal, v(0.0, 0.0, 1.0));
    assert!(rec.front_face);
    assert!(q.hit(&ray(v(1.5, 0.0, 0.0), v(0.0, 0.0, -1.0)), forward()).is_none());
    assert!(q.hit(&ray(v(0.0, 0.0, 0.0), v(0.0, 0.0, 1.0)), forward()).is_none());
    // A ray in the plane of the quad is parallel to it.
    assert!(q.hit(&ray(v(-5.0, 0.0, -3.0), v(1.0, 0.0, 0.0)), forward()).is_none());
    // The corners belong to the quad.
    assert!(q.hit(&ray(v(1.0, 1.0, 0.0), v(0.0, 0.0, -1.0)), forward()).is_some());
}

#[test]
fn quad_is_hit_from_behind_with_the_normal_turned() {
    let q = Quad::new(v(-1.0, -1.0, -3.0), v(2.0, 0.0, 0.0), v(0.0, 2.0, 0.0), grey());
    let rec = q.hit(&ray(v(0.0, 0.0, -6.0), v(0.0, 0.0, 1.0)), forward()).unwrap();
    assert_eq!(rec.t, fx(3.0));
    assert_eq!(rec.normal, v(0.0, 0.0, -1.0));
    assert!(!rec.front_face);
}

#[test]
fn quad_window_ends_are_excluded() {
    let q = Quad::new(v(-1.0, -1.0, -3.0), v(2.0, 0.0, 0.0), v(0.0, 2.0, 0.0), grey());
    let r = ray(v(0.0, 0.0, 0.0), v(0.0, 0.0, -1.0));
    assert!(q.hit(&r, Interval::new(fx(0.0), fx(3.0))).is_none());
    assert!(q.hit(&r, Interval::new(fx(3.0), fx(9.0))).is_none());
    assert!(q.hit(&r, Interval::new(fx(2.9), fx(3.1))).is_some());
}

#[test]
fn quad_box_and_light_sampling() {
    let q = Quad::new(v(-1.0, 2.0, -1.0), v(2.0, 0.0, 0.0), v(0.0, 0.0, 2.0), grey());
    assert_eq!(q.bbox, AABB::from_points(v(-1.0, 2.0, -1.0), v(1.0, 2.0, 1.0)).padded());
    let origin = v(0.0, 0.0, 0.0);
    // Straight up: distance 2, cosine 1, area 4.
    assert_eq!(q.pdf_value(origin, v(0.0, 1.0, 0.0)), fx(1.0));
    assert_eq!(q.pdf_value(origin, v(0.0, -1.0, 0.0)), Fixed::zero());
    assert_eq!(q.pdf_value(origin, v(1.0, 0.1, 0.0)), Fixed::zero());
    assert_eq!(q.toward(origin, fx(0.5), fx(0.25)), v(0.0, 2.0, -0.5));
    for _ in 0..200 {
        let d = q.random(origin);
        assert_eq!(d.y, fx(2.0));
        assert!(d.x.raw >= fx(-1.0).raw && d.x.raw < fx(1.0).raw);
        assert!(d.z.raw >= fx(-1.0).raw && d.z.raw < fx(1.0).raw);
        assert!(q.pdf_value(origin, d).raw > 0);
    }
}

#[test]
fn triangle_is_hit_inside_and_missed_outside() {
    let t = Triangle::new(v(0.0, 0.0, -2.0), v(2.0, 0.0, -2.0), v(0.0, 2.0, -2.0), grey());
    assert_eq!(t.normal, v(0.0, 0.0, 1.0));
    assert_eq!(t.u, v(2.0, 0.0, 0.0));
    assert_eq!(t.v, v(0.0, 2.0, 0.0));
    assert_eq!(t.bbox, AABB::from_points(v(0.0, 0.0, -2.0), v(2.0, 2.0, -2.0)).padded());
    let rec = t.hit(&ray(v(0.5, 0.5, 0.0), v(0.0, 0.0, -1.0)), forward()).unwrap();
    assert_eq!(rec.t, fx(2.0));
    assert_eq!(rec.u, fx(0.25));
    assert_eq!(rec.v, fx(0.25));
    assert!(t.hit(&ray(v(1.5, 1.5, 0.0), v(0.0, 0.0, -1.0)), forward()).is_none());
    assert!(t.hit(&ray(v(-0.1, 0.5, 0.0), v(0.0, 0.0, -1.0)), forward()).is_none());
    assert!(t.hit(&ray(v(1.0, 1.0, 0.0), v(0.0, 0.0, -1.0)), forward()).is_some());
}

#[test]
fn moved_object_is_hit_where_it_was_moved_to() {
    let s = Hittable::Sphere(Sphere::new(v(0.0, 0.0, -5.0), fx(1.0), grey()));
    let t = Translate::new(Box::new(s), v(3.0, 0.0, 0.0));
    assert_eq!(t.bbox, AABB::from_points(v(2.0, -1.0, -6.0), v(4.0, 1.0, -4.0)).padded());
    let moved = Hittable::Translate(t);
    assert!(moved.hit(&ray(v(0.0, 0.0, 0.0), v(0.0, 0.0, -1.0)), forward()).is_none());
    let rec = moved.hit(&ray(v(3.0, 0.0, 0.0), v(0.0, 0.0, -1.0)), forward()).unwrap();
    assert_eq!(rec.t, fx(4.0));
    assert_eq!(rec.p, v(3.0, 0.0, -4.0));
    assert_eq!(rec.normal, v(0.0, 0.0, 1.0));
}

#[test]
fn moving_there_and_back_changes_no_hit() {
    let delta = v(1.5, -2.0, 0.25);
    let plain = Hittable::Sphere(Sphere::new(v(0.0, 0.0, -5.0), fx(1.0), grey()));
    let there = Hittable::Translate(Translate::new(
        Box::new(Hittable::Sphere(Sphere::new(v(0.0, 0.0, -5.0), fx(1.0), grey()))),
        delta,
    ));
    let back = Hittable::Translate(Translate::new(Box::new(there), delta.neg()));
    for i in -6..=6 {
        for j in -6..=6 {
            let r = ray(v(0.1, 0.2, 0.0), v(i as f64 * 0.05, j as f64 * 0.05, -1.0));
            let a = plain.hit(&r, forward());
            let b = back.hit(&r, forward());
            match (a, b) {
                (None, None) => {}
                (Some(x), Some(y)) => {
                    assert_eq!(x.t, y.t);
                    assert_eq!(x.p, y.p);
                    assert_eq!(x.normal, y.normal);
                    assert_eq!(x.front_face, y.front_face);
                }
                _ => panic!("one hit and one miss"),
            }
        }
    }
}

#[test]
fn turned_object_is_hit_where_it_was_turned_to() {
    let s = Hittable::Sphere(Sphere::new(v(0.0, 0.0, -5.0), fx(1.0), grey()));
    let turned = Hittable::RotateY(RotateY::new(Box::new(s), fx(90.0)));
    // A quarter turn about the y axis carries -z to -x.
    let rec = turned.hit(&ray(v(0.0, 0.0, 0.0), v(-1.0, 0.0, 0.0)), forward()).unwrap();
    assert!((fl(rec.t) - 4.0).abs() < 1e-6);
    assert!(near(rec.p, v(-4.0, 0.0, 0.0), 1e-6));
    assert!(near(rec.normal, v(1.0, 0.0, 0.0), 1e-6));
    assert!(turned.hit(&ray(v(0.0, 0.0, 0.0), v(0.0, 0.0, -1.0)), forward()).is_none());
    let b = turned.bounding_box();
    assert!(b.contains(v(-5.0, 0.0, 0.0)));
    assert!(!b.contains(v(0.0, 0.0, -5.0)));
}

#[test]
fn turning_there_and_back_changes_hits_little() {
    let plain = Hittable::Sphere(Sphere::new(v(0.5, 0.0, -5.0), fx(1.0), grey()));
    let there = Hittable::RotateY(RotateY::new(
        Box::new(Hittable::Sphere(Sphere::new(v(0.5, 0.0, -5.0), fx(1.0), grey()))),
        fx(37.0),
    ));
    let back = Hittable::RotateY(RotateY::new(Box::new(there), fx(-37.0)));
    let mut both = 0;
    for i in -6..=6 {
        for j in -6..=6 {
            let r = ray(v(0.0, 0.0, 0.0), v(i as f64 * 0.03, j as f64 * 0.03, -1.0));
            if let (Some(x), Some(y)) = (plain.hit(&r, forward()), back.hit(&r, forward())) {
                both += 1;
                assert!((fl(x.t) - fl(y.t)).abs() < 1e-6);
                assert!(near(x.p, y.p, 1e-6));
                assert!(near(x.normal, y.normal, 1e-6));
            }
        }
    }
    assert!(both > 50);
}

#[test]
fn squares_of_sine_and_cosine_add_up_to_one_within_eight_units() {
    let one = ONE_RAW as i128;
    let mut k = -7200;
    while k <= 7200 {
        let (s, c) = sin_cos(degrees_to_radians(fx(k as f64 * 0.1)));
        let sum = (s.raw as i128) * (s.raw as i128) + (c.raw as i128) * (c.raw as i128);
        assert!((sum - one * one).abs() <= 8 * one, "{} {}", k, sum - one * one);
        k += 1;
    }
}

#[test]
fn turning_a_point_there_and_back_moves_it_by_38_units_at_most() {
    let within = |a: Vec3, b: Vec3| {
        (a.x.raw - b.x.raw).abs() <= 38 && a.y == b.y && (a.z.raw - b.z.raw).abs() <= 38
    };
    for k in -36..=36 {
        let (s, c) = sin_cos(degrees_to_radians(fx(k as f64 * 9.7)));
        for i in -4..=4 {
            for j in -4..=4 {
                let p = v(i as f64 * 0.99, 0.3 * k as f64, j as f64 * 0.97);
                assert!(within(turn_back(turn(p, s, c), s, c), p));
                assert!(within(turn(turn_back(p, s, c), s, c), p));
                assert_eq!(turn_back(p, s.neg(), c), turn(p, s, c));
            }
        }
    }
}

#[test]
fn list_grows_and_empties() {
    let mut list = HittableList::new();
    assert_eq!(list.objects.len(), 0);
    assert_eq!(list.bounding_box(), AABB::empty());
    assert!(list.hit(&ray(v(0.0, 0.0, 0.0), v(0.0, 0.0, -1.0)), forward()).is_none());
    list.add(Hittable::Sphere(Sphere::new(v(0.0, 0.0, -5.0), fx(1.0), grey())));
    list.add(Hittable::Sphere(Sphere::new(v(3.0, 0.0, -5.0), fx(1.0), grey())));
    assert_eq!(list.objects.len(), 2);
    assert_eq!(list.bounding_box(), AABB::from_points(v(-1.0, -1.0, -6.0), v(4.0, 1.0, -4.0)).padded());
    list.clear();
    assert_eq!(list.objects.len(), 0);
    assert_eq!(list.bounding_box(), AABB::from_points(v(-1.0, -1.0, -6.0), v(4.0, 1.0, -4.0)).padded());
}

#[test]
fn list_reports_the_nearest_hit() {
    let mut list = HittableList::new();
    list.add(Hittable::Sphere(Sphere::new(v(0.0, 0.0, -9.0), fx(1.0), grey())));
    list.add(Hittable::Sphere(Sphere::new(v(0.0, 0.0, -5.0), fx(1.0), grey())));
    list.add(Hittable::Sphere(Sphere::new(v(0.0, 0.0, -7.0), fx(0.5), grey())));
    let r = ray(v(0.0, 0.0, 0.0), v(0.0, 0.0, -1.0));
    assert_eq!(list.hit(&r, forward()).unwrap().t, fx(4.0));
    assert_eq!(list.hit(&r, Interval::new(fx(6.1), fx(100.0))).unwrap().t, fx(6.5));
    let world = Hittable::List(list);
    assert_eq!(world.hit(&r, forward()).unwrap().t, fx(4.0));
}

#[test]
fn list_light_sampling_mixes_its_objects_evenly() {
    let mut lights = HittableList::new();
    lights.add(Hittable::Quad(Quad::new(
        v(-1.0, 2.0, -1.0), v(2.0, 0.0, 0.0), v(0.0, 0.0, 2.0), grey(),
    )));
    lights.add(Hittable::Quad(Quad::new(
        v(-1.0, -2.0, -1.0), v(2.0, 0.0, 0.0), v(0.0, 0.0, 2.0), grey(),
    )));
    let origin = v(0.0, 0.0, 0.0);
    assert_eq!(lights.pdf_value(origin, v(0.0, 1.0, 0.0)), fx(0.5));
    assert_eq!(lights.pdf_value(origin, v(0.0, -1.0, 0.0)), fx(0.5));
    assert_eq!(lights.pdf_value(origin, v(1.0, 0.0, 0.0)), Fixed::zero());
    let mut up = 0;
    let mut down = 0;
    for _ in 0..400 {
        let d = lights.random(origin);
        if d.y == fx(2.0) {
            up += 1;
        } else {
            assert_eq!(d.y, fx(-2.0));
            down += 1;
        }
    }
    assert!(up > 120 && down > 120);
    assert_eq!(HittableList::new().random(origin), v(1.0, 0.0, 0.0));
    assert_eq!(HittableList::new().pdf_value(origin, v(0.0, 1.0, 0.0)), Fixed::zero());
}

#[test]
fn objects_that_are_no_lights_have_no_density() {
    let s = Hittable::Sphere(Sphere::new(v(0.0, 0.0, -5.0), fx(1.0), grey()));
    assert_eq!(s.pdf_value(v(0.0, 0.0, 0.0), v(0.0, 0.0, -1.0)), Fixed::zero());
    assert_eq!(s.random(v(0.0, 0.0, 0.0)), v(1.0, 0.0, 0.0));
}

fn scattered_spheres(n: usize) -> Vec<Hittable> {
    let mut out = Vec::new();
    for k in 0..n {
        let a = (k as f64 * 0.618_033_988_75).fract() * 8.0 - 4.0;
        let b = (k as f64 * 0.414_213_562_37).fract() * 8.0 - 4.0;
        let c = -6.0 - (k as f64 * 0.259_921_049_89).fract() * 6.0;
        out.push(Hittable::Sphere(Sphere::new(v(a, b, c), fx(0.4 + (k % 3) as f64 * 0.2), grey())));
    }
    out
}

#[test]
fn sorting_orders_by_the_near_end_of_the_box_and_keeps_ties() {
    let mut objects = vec![
        Hittable::Sphere(Sphere::new(v(3.0, 0.0, 0.0), fx(1.0), grey())),
        Hittable::Sphere(Sphere::new(v(1.0, 5.0, 0.0), fx(1.0), grey())),
        Hittable::Sphere(Sphere::new(v(2.0, 0.0, 0.0), fx(1.0), grey())),
        Hittable::Sphere(Sphere::new(v(1.0, 7.0, 0.0), fx(1.0), grey())),
        Hittable::Sphere(Sphere::new(v(0.0, 0.0, 0.0), fx(1.0), grey())),
    ];
    let near = |x: f64| Fixed { raw: fx(x).raw - BOX_PADDING_RAW / 2 };
    sort_by_key(&mut objects, 0);
    let xs: Vec<Fixed> = objects.iter().map(|o| o.bounding_box().x.min).collect();
    assert_eq!(xs, vec![near(-1.0), near(0.0), near(0.0), near(1.0), near(2.0)]);
    let ys: Vec<Fixed> = objects.iter().map(|o| o.bounding_box().y.min).collect();
    assert_eq!(ys[1], near(4.0));
    assert_eq!(ys[2], near(6.0));
    sort_by_key(&mut objects, 1);
    let ys: Vec<Fixed> = objects.iter().map(|o| o.bounding_box().y.min).collect();
    assert_eq!(ys, vec![near(-1.0), near(-1.0), near(-1.0), near(4.0), near(6.0)]);
    let xs: Vec<Fixed> = objects.iter().map(|o| o.bounding_box().x.min).collect();
    assert_eq!(xs[0], near(-1.0));
    assert_eq!(xs[1], near(1.0));
    assert_eq!(xs[2], near(2.0));
}

fn count_leaves(n: &BVHNode) -> usize {
    match n {
        BVHNode::Leaf { .. } => 1,
        BVHNode::Internal { left, right, .. } => count_leaves(left) + count_leaves(right),
    }
}

fn boxes_are_unions(n: &BVHNode) -> bool {
    match n {
        BVHNode::Leaf { object, bbox } => *bbox == object.bounding_box(),
        BVHNode::Internal { left, right, bbox } => {
            boxes_are_unions(left)
                && boxes_are_unions(right)
                && *bbox == AABB::from_aabb(left.bounding_box(), right.bounding_box())
        }
    }
}

#[test]
fn hierarchy_of_one_and_two_objects() {
    let one = BVHNode::node(scattered_spheres(1));
    assert!(matches!(one, BVHNode::Leaf { .. }));
    let objects = scattered_spheres(2);
    let first_box = objects[0].bounding_box();
    let second_box = objects[1].bounding_box();
    let two = BVHNode::node(objects);
    match two {
        BVHNode::Internal { left, right, bbox } => {
            assert_eq!(left.bounding_box(), second_box);
            assert_eq!(right.bounding_box(), first_box);
            assert_eq!(bbox, AABB::from_aabb(second_box, first_box));
        }
        _ => panic!("two objects make an inner node"),
    }
}

#[test]
fn hierarchy_splits_in_halves_along_the_longest_axis() {
    let mut objects = Vec::new();
    for k in [5.0, 1.0, 4.0, 2.0, 3.0] {
        objects.push(Hittable::Sphere(Sphere::new(v(k * 10.0, 0.0, 0.0), fx(1.0), grey())));
    }
    let tree = BVHNode::node(objects);
    assert!(boxes_are_unions(&tree));
    assert_eq!(count_leaves(&tree), 5);
    match &tree {
        BVHNode::Internal { left, right, .. } => {
            assert_eq!(count_leaves(left), 2);
            assert_eq!(count_leaves(right), 3);
            let padding = Fixed { raw: BOX_PADDING_RAW };
            assert_eq!(left.bounding_box().x, Interval::new(fx(9.0), fx(21.0)).expand(padding));
            assert_eq!(right.bounding_box().x, Interval::new(fx(29.0), fx(51.0)).expand(padding));
        }
        _ => panic!("five objects make an inner node"),
    }
}

#[test]
fn hierarchy_finds_what_the_list_finds() {
    let mut list = HittableList::new();
    for o in scattered_spheres(40) {
        list.add(o);
    }
    let tree = BVHNode::from_list({
        let mut l = HittableList::new();
        for o in scattered_spheres(40) {
            l.add(o);
        }
        l
    });
    assert!(boxes_are_unions(&tree));
    assert_eq!(count_leaves(&tree), 40);
    assert_eq!(tree.bounding_box(), list.bounding_box());
    let mut hits = 0;
    for i in -20..=20 {
        for j in -20..=20 {
            let r = ray(v(0.0, 0.0, 0.0), v(i as f64 * 0.03, j as f64 * 0.03, -1.0));
            let a = list.hit(&r, forward());
            let b = tree.hit(&r, forward());
            assert_eq!(time_of(&a), time_of(&b));
            if a.is_some() {
                hits += 1;
            }
        }
    }
    assert!(hits > 100);
    let world = Hittable::Bvh(tree);
    let r = ray(v(0.0, 0.0, 0.0), v(0.0, 0.0, -1.0));
    assert_eq!(time_of(&world.hit(&r, forward())), time_of(&list.hit(&r, forward())));
}

#[test]
fn box_has_six_sides_that_face_outward() {
    let b = make_box(v(1.0, 2.0, 3.0), v(-1.0, 0.0, 0.0), grey);
    let sides = match &b {
        Hittable::List(l) => l,
        _ => panic!("a box is a list"),
    };
    assert_eq!(sides.objects.len(), 6);
    let centre = v(0.0, 1.0, 1.5);
    let outward = [
        v(0.0, 0.0, 1.0), v(1.0, 0.0, 0.0), v(0.0, 0.0, -1.0), v(-1.0, 0.0, 0.0), v(0.0, 1.0, 0.0),
        v(0.0, -1.0, 0.0),
    ];
    for (k, side) in sides.objects.iter().enumerate() {
        match side {
            Hittable::Quad(q) => {
                assert_eq!(q.normal, outward[k]);
                let mid = q.q.add(q.u.scale(fx(0.5))).add(q.v.scale(fx(0.5)));
                assert!(dot(mid.sub(centre), q.normal).raw > 0);
            }
            _ => panic!("a side is a quad"),
        }
    }
    assert_eq!(b.bounding_box(), AABB::from_points(v(-1.0, 0.0, 0.0), v(1.0, 2.0, 3.0)).padded());
    let rec = b.hit(&ray(v(0.0, 1.0, 10.0), v(0.0, 0.0, -1.0)), forward()).unwrap();
    assert_eq!(rec.t, fx(7.0));
    assert!(rec.front_face);
    let inside = b.hit(&ray(v(0.0, 1.0, 1.0), v(0.0, 1.0, 0.0)), forward()).unwrap();
    assert_eq!(inside.t, fx(1.0));
    assert!(!inside.front_face);
}

#[test]
fn medium_scatters_between_entry_and_exit() {
    let boundary = Hittable::Sphere(Sphere::new(v(0.0, 0.0, -5.0), fx(1.0), grey()));
    let m = ConstantMedium::from_color(Box::new(boundary), fx(2.0), v(1.0, 1.0, 1.0));
    assert_eq!(m.neg_inv_density, fx(-0.5));
    let r = ray(v(0.0, 0.0, 0.0), v(0.0, 0.0, -1.0));
    // The fraction one picks depth zero: the ray scatters where it enters.
    let at_entry = m.scatter_between(&r, forward(), fx(4.0), fx(6.0), fx(1.0)).unwrap();
    assert_eq!(at_entry.t, fx(4.0));
    assert_eq!(at_entry.p, v(0.0, 0.0, -4.0));
    assert_eq!(at_entry.normal, v(1.0, 0.0, 0.0));
    assert!(at_entry.front_face);
    // -ln(1/e)/2 = 0.5.
    let inside = m.scatter_between(&r, forward(), fx(4.0), fx(6.0), fx((-1.0f64).exp())).unwrap();
    assert!((fl(inside.t) - 4.5).abs() < 1e-6);
    // -ln(0.001)/2 = 3.45 is beyond the two units inside the boundary.
    assert!(m.scatter_between(&r, forward(), fx(4.0), fx(6.0), fx(0.001)).is_none());
    assert!(m.scatter_between(&r, forward(), fx(4.0), fx(6.0), Fixed::zero()).is_none());
    // The window cuts the stretch inside the boundary.
    assert!(m.scatter_between(&r, Interval::new(fx(0.0), fx(4.2)), fx(4.0), fx(6.0), fx((-1.0f64).exp())).is_none());
    assert!(m.scatter_between(&r, Interval::new(fx(7.0), fx(9.0)), fx(4.0), fx(6.0), fx(1.0)).is_none());
    // A ray that starts inside scatters from its origin on.
    let from_inside = m.scatter_between(&r, forward(), fx(-1.0), fx(1.0), fx(1.0)).unwrap();
    assert_eq!(from_inside.t, fx(0.001));
}

#[test]
fn medium_is_hit_only_through_its_boundary() {
    let boundary = Hittable::Sphere(Sphere::new(v(0.0, 0.0, -5.0), fx(1.0), grey()));
    let fog = Hittable::ConstantMedium(ConstantMedium::from_color(
        Box::new(boundary), fx(1000.0), v(1.0, 1.0, 1.0),
    ));
    assert_eq!(fog.bounding_box(), AABB::from_points(v(-1.0, -1.0, -6.0), v(1.0, 1.0, -4.0)).padded());
    let through = ray(v(0.0, 0.0, 0.0), v(0.0, 0.0, -1.0));
    let beside = ray(v(0.0, 3.0, 0.0), v(0.0, 0.0, -1.0));
    let mut hits = 0;
    for _ in 0..200 {
        if let Some(rec) = fog.hit(&through, forward()) {
            hits += 1;
            assert!(fl(rec.t) >= 4.0 && fl(rec.t) <= 6.0);
        }
        assert!(fog.hit(&beside, forward()).is_none());
    }
    assert!(hits > 190);
    let thin = Hittable::ConstantMedium(ConstantMedium::from_color(
        Box::new(Hittable::Sphere(Sphere::new(v(0.0, 0.0, -5.0), fx(1.0), grey()))),
        fx(0.0001),
        v(1.0, 1.0, 1.0),
    ));
    let mut thin_hits = 0;
    for _ in 0..200 {
        if thin.hit(&through, forward()).is_some() {
            thin_hits += 1;
        }
    }
    assert!(thin_hits < 10);
}

fn square_mesh() -> Mesh {
    Mesh {
        positions: vec![
            fx(0.0), fx(0.0), fx(-5.0), fx(1.0), fx(0.0), fx(-5.0), fx(1.0), fx(1.0), fx(-5.0),
            fx(0.0), fx(1.0), fx(-5.0),
        ],
        indices: vec![0, 1, 2, 0, 2, 3],
    }
}

#[test]
fn mesh_becomes_a_hierarchy_of_its_triangles() {
    let tree = load_obj(&vec![square_mesh()], grey()).unwrap();
    assert_eq!(count_leaves(&tree), 2);
    let b = tree.bounding_box();
    assert!((fl(b.x.min) - 0.0).abs() < 1e-3 && (fl(b.x.max) - 1.0).abs() < 1e-3);
    assert!((fl(b.z.min) + 5.0).abs() < 1e-3);
    let mut corners = Vec::new();
    match &tree {
        BVHNode::Internal { left, right, .. } => {
            for leaf in [left, right] {
                match &**leaf {
                    BVHNode::Leaf { object, .. } => match &**object {
                        Hittable::Triangle(t) => {
                            assert_eq!(t.normal, v(0.0, 0.0, 1.0));
                            assert_eq!(t.v0, v(0.0, 0.0, -5.0));
                            corners.push((t.v1, t.v2));
                        }
                        _ => panic!("a mesh is made of triangles"),
                    },
                    _ => panic!("two triangles make two leaves"),
                }
            }
        }
        _ => panic!("two triangles make an inner node"),
    }
    assert!(corners.contains(&(v(1.0, 0.0, -5.0), v(1.0, 1.0, -5.0))));
    assert!(corners.contains(&(v(1.0, 1.0, -5.0), v(0.0, 1.0, -5.0))));
    let two = load_obj(&vec![square_mesh(), square_mesh()], grey()).unwrap();
    assert_eq!(count_leaves(&two), 4);
}

#[test]
fn malformed_meshes_are_refused() {
    let mut bad_positions = square_mesh();
    bad_positions.positions.pop();
    assert_eq!(bad_positions.error(), Some(MeshError::BadPositions));
    assert_eq!(load_obj(&vec![bad_positions], grey()).err(), Some(MeshError::BadPositions));
    let mut bad_indices = square_mesh();
    bad_indices.indices.pop();
    assert_eq!(load_obj(&vec![bad_indices], grey()).err(), Some(MeshError::BadIndices));
    let mut out_of_range = square_mesh();
    out_of_range.indices[4] = 4;
    assert_eq!(load_obj(&vec![out_of_range], grey()).err(), Some(MeshError::IndexOutOfRange));
    let empty = Mesh { positions: vec![], indices: vec![] };
    assert_eq!(empty.error(), None);
    assert_eq!(load_obj(&vec![empty], grey()).err(), Some(MeshError::Empty));
    assert_eq!(load_obj(&vec![], grey()).err(), Some(MeshError::Empty));
    let mut first_wrong = square_mesh();
    first_wrong.indices.pop();
    let mut second_wrong = square_mesh();
    second_wrong.positions.pop();
    assert_eq!(
        load_obj(&vec![square_mesh(), first_wrong, second_wrong], grey()).err(),
        Some(MeshError::BadIndices)
    );
}

#[test]
fn hits_of_surfaces_lie_in_the_window_against_the_ray() {
    let mut list = HittableList::new();
    for o in scattered_spheres(10) {
        list.add(o);
    }
    list.add(Hittable::Quad(Quad::new(
        v(-3.0, -3.0, -14.0), v(6.0, 0.0, 0.0), v(0.0, 6.0, 1.0), grey(),
    )));
    list.add(Hittable::Triangle(Triangle::new(
        v(-2.0, -2.0, -4.0), v(2.0, -2.0, -4.5), v(0.0, 1.0, -4.0), grey(),
    )));
    list.add(Hittable::Translate(Translate::new(
        Box::new(make_box(v(0.0, 0.0, 0.0), v(1.0, 1.0, 1.0), grey)),
        v(1.0, 1.0, -6.0),
    )));
    let world = Hittable::List(list);
    let w = Interval::new(fx(0.5), fx(13.0));
    let mut hits = 0;
    for i in -15..=15 {
        for j in -15..=15 {
            let r = ray(v(0.0, 0.0, 0.0), unit_vector(v(i as f64 * 0.03, j as f64 * 0.03, -1.0)));
            if let Some(rec) = world.hit(&r, w) {
                hits += 1;
                assert!(w.min.raw < rec.t.raw && rec.t.raw < w.max.raw);
                assert!(dot(r.direction, rec.normal).raw <= 0);
            }
        }
    }
    assert!(hits > 300);
}

#[test]
fn boxes_of_surfaces_are_padded() {
    let b = AABB::from_points(v(-1.0, -1.0, -2.0), v(1.0, 1.0, -2.0)).padded();
    assert_eq!(b.z.min.raw, fx(-2.0).raw - BOX_PADDING_RAW / 2);
    assert_eq!(b.z.max.raw, fx(-2.0).raw + BOX_PADDING_RAW / 2);
    assert_eq!(b.x.min.raw, fx(-1.0).raw - BOX_PADDING_RAW / 2);
    assert_eq!(b.x.max.raw, fx(1.0).raw + BOX_PADDING_RAW / 2);
    let q = Quad::new(v(-1.0, -1.0, -2.0), v(2.0, 0.0, 0.0), v(0.0, 2.0, 0.0), grey());
    assert_eq!(q.bbox, b);
    assert!(q.bbox.hit(&ray(v(0.0, 0.0, 0.0), v(0.0, 0.0, -1.0)), forward()));
}

#[test]
fn hierarchy_finds_a_flat_parallelogram() {
    let q = Quad::new(v(-1.0, -1.0, -2.0), v(2.0, 0.0, 0.0), v(0.0, 2.0, 0.0), grey());
    let tree = BVHNode::node(vec![Hittable::Quad(q)]);
    let r = ray(v(0.0, 0.0, 0.0), v(0.0, 0.0, -1.0));
    let rec = tree.hit(&r, forward()).unwrap();
    assert_eq!(rec.t, fx(2.0));
    assert_eq!(rec.p, v(0.0, 0.0, -2.0));
    assert_eq!(rec.normal, v(0.0, 0.0, 1.0));
    assert!(rec.front_face);
    let mut list = HittableList::new();
    list.add(Hittable::Quad(Quad::new(
        v(-1.0, -1.0, -2.0), v(2.0, 0.0, 0.0), v(0.0, 2.0, 0.0), grey(),
    )));
    let same = list.hit(&r, forward()).unwrap();
    assert_eq!((same.t, same.p, same.normal, same.front_face), (rec.t, rec.p, rec.normal, true));
}

fn flat_objects() -> Vec<Hittable> {
    let mut out = Vec::new();
    for k in 0..6 {
        let z = -2.0 - k as f64;
        let x = -3.0 + k as f64;
        out.push(Hittable::Quad(Quad::new(
            v(x, -1.0, z), v(1.5, 0.0, 0.0), v(0.0, 2.0, 0.0), grey(),
        )));
        out.push(Hittable::Triangle(Triangle::new(
            v(x, 1.5, z - 0.5), v(x + 2.0, 1.5, z - 0.5), v(x, 3.0, z - 0.5), grey(),
        )));
        out.push(Hittable::Quad(Quad::new(
            v(x, -2.0, z), v(1.5, 0.0, 0.0), v(0.0, 0.0, -1.0), grey(),
        )));
    }
    out
}

#[test]
fn hierarchy_finds_the_flat_objects_that_the_list_finds() {
    let tree = BVHNode::node(flat_objects());
    let mut list = HittableList::new();
    for o in flat_objects() {
        list.add(o);
    }
    let mut hits = 0;
    for i in -20..=20 {
        for j in -20..=20 {
            let r = ray(v(0.1, 0.2, 1.0), v(i as f64 * 0.07 + 0.003, j as f64 * 0.06 + 0.001, -1.0));
            let a = time_of(&tree.hit(&r, forward()));
            let b = time_of(&list.hit(&r, forward()));
            assert_eq!(a, b);
            if a.is_some() {
                hits += 1;
            }
        }
    }
    assert!(hits > 200, "{}", hits);
}

#[test]
fn boxes_of_flat_objects_hold_their_hits_with_the_margin() {
    let mut hits = 0;
    for o in flat_objects() {
        for i in -20..=20 {
            for j in -20..=20 {
                let d = v(i as f64 * 0.07 + 0.003, j as f64 * 0.06 + 0.001, -1.0);
                let r = ray(v(0.1, 0.2, 1.0), d);
                if let Some(rec) = o.hit(&r, forward()) {
                    hits += 1;
                    assert!(holds_point(&o.bounding_box(), &r, rec.t));
                }
            }
        }
    }
    assert!(hits > 200, "{}", hits);
}

#[test]
fn a_box_holds_a_point_only_with_the_margin_to_spare() {
    let b = AABB::from_points(v(0.0, 0.0, 0.0), v(1.0, 1.0, 1.0));
    let r = ray(v(0.5, 0.5, 2.0), v(0.0, 0.0, -1.0));
    assert!(holds_point(&b, &r, fx(1.5)));
    assert!(!holds_point(&b, &r, fx(1.0)));
    assert!(!holds_point(&b, &r, fx(2.5)));
    // on z the margin is 3 units in the last place for a direction of length one
    assert!(holds_point(&b, &r, Fixed { raw: fx(1.0).raw + 3 }));
    assert!(!holds_point(&b, &r, Fixed { raw: fx(1.0).raw + 2 }));
    // on x and y, where the ray does not move, it is 2
    let edge = ray(Vec3::new(Fixed { raw: 2 }, fx(0.5), fx(2.0)), v(0.0, 0.0, -1.0));
    assert!(holds_point(&b, &edge, fx(1.5)));
    let outer = ray(Vec3::new(Fixed { raw: 1 }, fx(0.5), fx(2.0)), v(0.0, 0.0, -1.0));
    assert!(!holds_point(&b, &outer, fx(1.5)));
    assert!(axis_holds(&b.x, fx(0.5), Fixed::zero(), fx(7.0)));
    let far = ray(v(0.5, 0.5, 2.0), v(0.0, 0.0, -20000.0));
    assert!(!holds_point(&b, &far, fx(0.0001)));
}

#[test]
fn hierarchy_of_a_mesh_finds_its_flat_triangles() {
    let tree = load_obj(&vec![square_mesh()], grey()).unwrap();
    let rec = tree.hit(&ray(v(0.25, 0.5, 0.0), v(0.0, 0.0, -1.0)), forward()).unwrap();
    assert_eq!(rec.t, fx(5.0));
    assert_eq!(rec.p, v(0.25, 0.5, -5.0));
    assert!(tree.hit(&ray(v(0.75, 0.5, 0.0), v(0.0, 0.0, -1.0)), forward()).is_some());
    assert!(tree.hit(&ray(v(1.5, 0.5, 0.0), v(0.0, 0.0, -1.0)), forward()).is_none());
}

#[test]
fn a_quad_without_area_is_never_hit() {
    let q = Quad::new(v(0.0, 0.0, -3.0), v(1.0, 0.0, 0.0), v(2.0, 0.0, 0.0), grey());
    assert_eq!(q.area, Fixed::zero());
    assert_eq!(q.normal, Vec3::zero());
    for d in [v(0.0, 0.0, -1.0), v(0.1, -0.2, -1.0), v(0.0, 1.0, -1.0)] {
        assert!(q.hit(&ray(v(0.5, 0.0, 0.0), d), forward()).is_none());
    }
    let t = Triangle::new(v(0.0, 0.0, -3.0), v(1.0, 0.0, -3.0), v(2.0, 0.0, -3.0), grey());
    assert!(t.hit(&ray(v(0.5, 0.0, 0.0), v(0.0, 0.0, -1.0)), forward()).is_none());
}

#[test]
fn a_ray_that_leaves_a_surface_does_not_hit_it_again() {
    let s = Sphere::new(v(0.0, 0.0, -5.0), fx(1.0), grey());
    let first = s.hit(&ray(v(0.0, 0.0, 0.0), v(0.0, 0.0, -1.0)), forward()).unwrap();
    let leaving = ray(first.p, first.normal);
    assert!(s.hit(&leaving, forward()).is_none());
    let q = Quad::new(v(-1.0, -1.0, -3.0), v(2.0, 0.0, 0.0), v(0.0, 2.0, 0.0), grey());
    let on_quad = q.hit(&ray(v(0.0, 0.0, 0.0), v(0.2, 0.1, -1.0)), forward()).unwrap();
    let along = ray(on_quad.p, v(0.3, 0.0, 1.0));
    assert!(q.hit(&along, forward()).is_none());
}

#[test]
fn a_point_sphere_has_a_padded_box() {
    let s = Sphere::new(v(1.0, 2.0, 3.0), Fixed::zero(), grey());
    assert_eq!(s.bbox, AABB::from_points(v(1.0, 2.0, 3.0), v(1.0, 2.0, 3.0)).padded());
    assert!(s.hit(&ray(v(0.0, 0.0, 0.0), v(0.0, 0.0, -1.0)), forward()).is_none());
}
