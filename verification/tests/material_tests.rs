use pathtracer::fixed::{Fixed, ONE_RAW};
use pathtracer::hit_record::HitRecord;
use pathtracer::hittable::Hittable;
use pathtracer::hittable_list::HittableList;
use pathtracer::material::{
    reflectance, Dielectric, DiffuseLight, Isotropic, Lambertian, Material, Metal, ScatterRecord,
};
use pathtracer::pdf::{uniform_sphere_density, CosinePdf, HittablePdf, MixturePdf, Pdf, SpherePdf};
use pathtracer::quad::Quad;
use pathtracer::ray::Ray;
use pathtracer::texture::{SolidColor, Texture};
use pathtracer::vec3::{dot, unit_vector, Vec3};
use std::sync::Arc;

fn fx(x: f64) -> Fixed {
    Fixed::from_raw((x * 4294967296.0).round() as i64)
}

fn fl(x: Fixed) -> f64 {
    x.raw as f64 / 4294967296.0
}

fn v(x: f64, y: f64, z: f64) -> Vec3 {
    Vec3::new(fx(x), fx(y), fx(z))
}

fn len(a: Vec3) -> f64 {
    (fl(a.x).powi(2) + fl(a.y).powi(2) + fl(a.z).powi(2)).sqrt()
}

fn near(a: Vec3, b: Vec3, tol: f64) -> bool {
    (fl(a.x) - fl(b.x)).abs() <= tol
        && (fl(a.y) - fl(b.y)).abs() <= tol
        && (fl(a.z) - fl(b.z)).abs() <= tol
}

fn floor_hit<'a>(m: &'a Material, front: bool) -> HitRecord<'a> {
    HitRecord::new(v(1.0, 0.0, 2.0), v(0.0, 1.0, 0.0), m, fx(3.0), fx(0.25), fx(0.5), front)
}

fn incoming() -> Ray {
    Ray::new(v(0.0, 1.0, 1.0), v(1.0, -1.0, 1.0), fx(0.375))
}

#[test]
fn matte_surface_scatters_by_the_cosine_law() {
    let m = Material::Lambertian(Lambertian::new(v(0.8, 0.4, 0.2)));
    let rec = floor_hit(&m, true);
    match m.scatter(&incoming(), &rec) {
        Some(ScatterRecord::Pdf { attenuation, pdf }) => {
            assert_eq!(attenuation, v(0.8, 0.4, 0.2));
            match pdf {
                Pdf::Cosine(c) => assert_eq!(c.uvw.w(), v(0.0, 1.0, 0.0)),
                _ => panic!("a matte surface scatters by the cosine law"),
            }
        }
        _ => panic!("a matte surface scatters by a density"),
    }
    assert_eq!(m.emitted(&incoming(), &rec, rec.u, rec.v, rec.p), Vec3::zero());
    let up = Ray::new(rec.p, v(0.0, 2.0, 0.0), Fixed::zero());
    assert!((fl(m.scattering_pdf(&incoming(), &rec, &up)) - 1.0 / std::f64::consts::PI).abs() < 1e-8);
    let down = Ray::new(rec.p, v(0.0, -2.0, 0.0), Fixed::zero());
    assert_eq!(m.scattering_pdf(&incoming(), &rec, &down), Fixed::zero());
    let slanted = Ray::new(rec.p, v(3.0, 4.0, 0.0), Fixed::zero());
    assert!((fl(m.scattering_pdf(&incoming(), &rec, &slanted)) - 0.8 / std::f64::consts::PI).abs() < 1e-8);
}

#[test]
fn matte_surface_takes_its_colour_from_its_texture() {
    let tex = Arc::new(Texture::Solid(SolidColor::from_rgb(fx(0.1), fx(0.2), fx(0.3))));
    let m = Material::Lambertian(Lambertian::from_texture(tex));
    let rec = floor_hit(&m, true);
    match m.scatter_with(&incoming(), &rec, Vec3::zero(), Fixed::zero()) {
        Some(ScatterRecord::Pdf { attenuation, .. }) => assert_eq!(attenuation, v(0.1, 0.2, 0.3)),
        _ => panic!("a matte surface scatters by a density"),
    }
}

#[test]
fn clean_mirror_reflects() {
    let metal = Metal::new(v(0.9, 0.8, 0.7), Fixed::zero());
    let m = Material::Metal(Metal::new(v(0.9, 0.8, 0.7), Fixed::zero()));
    let rec = floor_hit(&m, true);
    let expected = unit_vector(v(1.0, 1.0, 1.0));
    match metal.scatter_with(&incoming(), &rec, v(0.0, 0.0, 1.0)) {
        Some(ScatterRecord::SkipPdf { attenuation, ray }) => {
            assert_eq!(attenuation, v(0.9, 0.8, 0.7));
            assert_eq!(ray.origin, rec.p);
            assert_eq!(ray.time, fx(0.375));
            assert!(near(ray.direction, expected, 1e-8));
        }
        _ => panic!("a mirror reflects along one ray"),
    }
    for _ in 0..50 {
        match m.scatter(&incoming(), &rec) {
            Some(ScatterRecord::SkipPdf { ray, .. }) => assert!(near(ray.direction, expected, 1e-8)),
            _ => panic!("a clean mirror always reflects"),
        }
    }
}

#[test]
fn blurred_mirror_moves_the_reflection() {
    let metal = Metal::new(v(1.0, 1.0, 1.0), fx(0.5));
    let m = Material::Metal(Metal::new(v(1.0, 1.0, 1.0), fx(0.5)));
    let rec = floor_hit(&m, true);
    match metal.scatter_with(&incoming(), &rec, v(0.0, 0.0, 1.0)) {
        Some(ScatterRecord::SkipPdf { ray, .. }) => {
            let clean = unit_vector(v(1.0, 1.0, 1.0));
            assert!(near(ray.direction, clean.add(v(0.0, 0.0, 0.5)), 1e-8));
        }
        _ => panic!("a mirror reflects along one ray"),
    }
    // A blur that pushes the reflection into the surface absorbs the ray.
    let grazing = Ray::new(v(0.0, 1.0, 1.0), v(1.0, -0.1, 0.0), Fixed::zero());
    assert!(metal.scatter_with(&grazing, &rec, v(0.0, -1.0, 0.0)).is_none());
    let mut different = false;
    let mut first: Option<Vec3> = None;
    for _ in 0..20 {
        if let Some(ScatterRecord::SkipPdf { ray, .. }) = m.scatter(&incoming(), &rec) {
            assert!(dot(ray.direction, rec.normal).raw > 0);
            match first {
                None => first = Some(ray.direction),
                Some(d) => {
                    if d != ray.direction {
                        different = true;
                    }
                }
            }
        }
    }
    assert!(different);
}

#[test]
fn reflectance_follows_schlick() {
    let want = |cosine: f64, index: f64| {
        let r0 = ((1.0 - index) / (1.0 + index)).powi(2);
        r0 + (1.0 - r0) * (1.0 - cosine).powi(5)
    };
    for (c, i) in [(1.0, 1.5), (0.5, 1.5), (0.0, 1.5), (0.3, 1.0 / 1.5), (0.9, 2.4)] {
        assert!((fl(reflectance(fx(c), fx(i))) - want(c, i)).abs() < 1e-8);
    }
    assert_eq!(reflectance(fx(1.0), fx(1.5)), fx(-0.2).mul(fx(-0.2)));
}

#[test]
fn glass_refracts_or_reflects() {
    let glass = Dielectric::new(fx(1.5));
    let m = Material::Dielectric(Dielectric::new(fx(1.5)));
    let rec = floor_hit(&m, true);
    let straight = Ray::new(v(1.0, 1.0, 2.0), v(0.0, -1.0, 0.0), fx(0.5));
    // Head on, four in a hundred rays are reflected.
    match glass.scatter_with(&straight, &rec, fx(0.5)) {
        ScatterRecord::SkipPdf { attenuation, ray } => {
            assert_eq!(attenuation, v(1.0, 1.0, 1.0));
            assert_eq!(ray.origin, rec.p);
            assert_eq!(ray.time, fx(0.5));
            assert!(near(ray.direction, v(0.0, -1.0, 0.0), 1e-8));
        }
        _ => panic!("glass scatters along one ray"),
    }
    match glass.scatter_with(&straight, &rec, fx(0.01)) {
        ScatterRecord::SkipPdf { ray, .. } => assert!(near(ray.direction, v(0.0, 1.0, 0.0), 1e-8)),
        _ => panic!("glass scatters along one ray"),
    }
    // From inside at a flat angle nothing can leave.
    let inside = floor_hit(&m, false);
    let flat = Ray::new(v(0.0, 1.0, 2.0), v(1.0, -0.5, 0.0), Fixed::zero());
    match glass.scatter_with(&flat, &inside, fx(0.999)) {
        ScatterRecord::SkipPdf { ray, .. } => {
            assert!(fl(ray.direction.y) > 0.0);
            assert!((len(ray.direction) - 1.0).abs() < 1e-7);
        }
        _ => panic!("glass scatters along one ray"),
    }
    let slanted = Ray::new(v(0.0, 1.0, 2.0), v(1.0, -1.0, 0.0), Fixed::zero());
    match glass.scatter_with(&slanted, &rec, fx(0.999)) {
        ScatterRecord::SkipPdf { ray, .. } => {
            let sin_out = fl(ray.direction.x) / len(ray.direction);
            assert!((sin_out - (0.5f64).sqrt() / 1.5).abs() < 1e-7);
            assert!(fl(ray.direction.y) < 0.0);
        }
        _ => panic!("glass scatters along one ray"),
    }
    let mut reflected = 0;
    for _ in 0..2000 {
        if let Some(ScatterRecord::SkipPdf { ray, .. }) = m.scatter(&straight, &rec) {
            if fl(ray.direction.y) > 0.0 {
                reflected += 1;
            }
        } else {
            panic!("glass always scatters");
        }
    }
    assert!(reflected > 30 && reflected < 150, "{}", reflected);
}

#[test]
fn light_shines_on_its_outer_side_only() {
    let m = Material::DiffuseLight(DiffuseLight::from_color(v(4.0, 3.0, 2.0)));
    let front = floor_hit(&m, true);
    assert_eq!(m.emitted(&incoming(), &front, front.u, front.v, front.p), v(4.0, 3.0, 2.0));
    assert!(m.scatter(&incoming(), &front).is_none());
    let back = floor_hit(&m, false);
    assert_eq!(m.emitted(&incoming(), &back, back.u, back.v, back.p), Vec3::zero());
    let up = Ray::new(front.p, v(0.0, 1.0, 0.0), Fixed::zero());
    assert_eq!(m.scattering_pdf(&incoming(), &front, &up), Fixed::zero());
    let tex = Arc::new(Texture::Solid(SolidColor::new(v(1.0, 2.0, 3.0))));
    let n = Material::DiffuseLight(DiffuseLight::new(tex));
    let rec = floor_hit(&n, true);
    assert_eq!(n.emitted(&incoming(), &rec, rec.u, rec.v, rec.p), v(1.0, 2.0, 3.0));
}

#[test]
fn smoke_scatters_evenly() {
    let m = Material::Isotropic(Isotropic::from_color(v(0.5, 0.6, 0.7)));
    let rec = floor_hit(&m, true);
    match m.scatter(&incoming(), &rec) {
        Some(ScatterRecord::Pdf { attenuation, pdf }) => {
            assert_eq!(attenuation, v(0.5, 0.6, 0.7));
            assert!(matches!(pdf, Pdf::Sphere(_)));
        }
        _ => panic!("smoke scatters by a density"),
    }
    let any = Ray::new(rec.p, v(0.3, -0.2, 0.9), Fixed::zero());
    assert_eq!(m.scattering_pdf(&incoming(), &rec, &any), uniform_sphere_density());
    let tex = Arc::new(Texture::Solid(SolidColor::new(v(0.1, 0.1, 0.1))));
    let n = Material::Isotropic(Isotropic::from_texture(tex));
    let rec = floor_hit(&n, true);
    match n.scatter(&incoming(), &rec) {
        Some(ScatterRecord::Pdf { attenuation, .. }) => assert_eq!(attenuation, v(0.1, 0.1, 0.1)),
        _ => panic!("smoke scatters by a density"),
    }
}

#[test]
fn uniform_density_is_one_over_four_pi() {
    let d = uniform_sphere_density();
    assert_eq!(d.raw, 341_782_637);
    assert!((fl(d) - 1.0 / (4.0 * std::f64::consts::PI)).abs() < 1e-9);
    let p = SpherePdf {};
    assert_eq!(p.value(v(1.0, 2.0, 3.0)), d);
    for _ in 0..200 {
        let g = p.generate();
        assert!((len(g) - 1.0).abs() < 1e-6);
        assert!(p.value(g).raw > 0);
    }
}

#[test]
fn cosine_density_values() {
    let p = CosinePdf::new(v(0.0, 0.0, 2.0));
    assert!((fl(p.value(v(0.0, 0.0, 5.0))) - 1.0 / std::f64::consts::PI).abs() < 1e-8);
    assert_eq!(p.value(v(0.0, 0.0, -1.0)), Fixed::zero());
    assert_eq!(p.value(v(1.0, 0.0, 0.0)), Fixed::zero());
    assert!((fl(p.value(v(0.0, 3.0, 4.0))) - 0.8 / std::f64::consts::PI).abs() < 1e-8);
}

#[test]
fn cosine_density_is_positive_where_it_draws() {
    for axis in [v(0.0, 0.0, 1.0), v(1.0, 0.0, 0.0), v(0.3, -0.5, 0.8)] {
        let p = CosinePdf::new(axis);
        for _ in 0..20_000 {
            let d = p.generate();
            assert!(p.value(d).raw > 0);
            assert!(dot(d, p.uvw.w()).raw > 0);
        }
    }
}

#[test]
fn cosine_density_integrates_to_one() {
    // The mean of density over its own draws' density is one by construction, so the
    // integral is estimated from uniform draws instead: the mean density over the
    // sphere times the area of the sphere.
    let p = CosinePdf::new(v(0.2, 0.4, -0.9));
    let uniform = SpherePdf {};
    let n = 200_000;
    let mut sum = 0.0;
    for _ in 0..n {
        let d = uniform.generate();
        sum += fl(p.value(d));
    }
    let integral = sum / n as f64 * 4.0 * std::f64::consts::PI;
    assert!((integral - 1.0).abs() < 0.01, "{}", integral);
}

#[test]
fn light_density_follows_its_objects() {
    let mat = Arc::new(Material::DiffuseLight(DiffuseLight::from_color(v(1.0, 1.0, 1.0))));
    let light = Hittable::Quad(Quad::new(v(-1.0, 2.0, -1.0), v(2.0, 0.0, 0.0), v(0.0, 0.0, 2.0), mat));
    let p = HittablePdf::new(&light, v(0.0, 0.0, 0.0));
    assert_eq!(p.value(v(0.0, 1.0, 0.0)), fx(1.0));
    assert_eq!(p.value(v(0.0, -1.0, 0.0)), Fixed::zero());
    for _ in 0..100 {
        let d = p.generate();
        assert_eq!(d.y, fx(2.0));
        assert!(p.value(d).raw > 0);
    }
    let none = Hittable::List(HittableList::new());
    let q = HittablePdf::new(&none, v(0.0, 0.0, 0.0));
    assert_eq!(q.value(v(0.0, 1.0, 0.0)), Fixed::zero());
    assert_eq!(q.generate(), v(1.0, 0.0, 0.0));
}

#[test]
fn mixture_halves_its_parts() {
    let mat = Arc::new(Material::DiffuseLight(DiffuseLight::from_color(v(1.0, 1.0, 1.0))));
    let light = Hittable::Quad(Quad::new(v(-1.0, 2.0, -1.0), v(2.0, 0.0, 0.0), v(0.0, 0.0, 2.0), mat));
    let mix = Pdf::Mixture(MixturePdf::new(
        Pdf::Hittable(HittablePdf::new(&light, v(0.0, 0.0, 0.0))),
        Pdf::Cosine(CosinePdf::new(v(0.0, -1.0, 0.0))),
    ));
    let up = mix.value(v(0.0, 1.0, 0.0));
    assert_eq!(up, fx(0.5));
    let down = mix.value(v(0.0, -1.0, 0.0));
    assert!((fl(down) - 0.5 / std::f64::consts::PI).abs() < 1e-8);
    let mut toward_light = 0;
    let mut away = 0;
    for _ in 0..1000 {
        let d = mix.generate();
        assert!(mix.value(d).raw > 0);
        if d.y == fx(2.0) {
            toward_light += 1;
        } else {
            assert!(fl(d.y) < 0.0);
            away += 1;
        }
    }
    assert!(toward_light > 400 && away > 400);
    assert_eq!(Pdf::Sphere(SpherePdf {}).value(v(1.0, 0.0, 0.0)).raw, 341_782_637);
    assert_eq!(ONE_RAW, 4294967296);
}
