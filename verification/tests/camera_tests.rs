use pathtracer::camera::{combine_pdf, combine_skip, ray_color, Camera};
use pathtracer::color::{channel_byte, linear_to_gamma, pixel_bytes, write_color};
use pathtracer::constant_medium::ConstantMedium;
use pathtracer::fixed::Fixed;
use pathtracer::hittable::Hittable;
use pathtracer::hittable_list::HittableList;
use pathtracer::material::{Dielectric, DiffuseLight, Lambertian, Material, Metal};
use pathtracer::quad::{make_box, Quad};
use pathtracer::ray::Ray;
use pathtracer::sphere::Sphere;
use pathtracer::transform::{RotateY, Translate};
use pathtracer::vec3::Vec3;
use std::sync::Arc;

fn fx(x: f64) -> Fixed {
    Fixed::from_raw((x * 4294967296.0).round() as i64)
}

fn fl(x: Fixed) -> f64 {
    x.raw as f64 / 4294967296.0
}

fn v(x: f64, y: f64, z: f64) -> Vec3 {
    Vec3::new(fx(x), fx(y), fx(z))
}

fn near(a: Vec3, b: Vec3, tol: f64) -> bool {
    (fl(a.x) - fl(b.x)).abs() <= tol
        && (fl(a.y) - fl(b.y)).abs() <= tol
        && (fl(a.z) - fl(b.z)).abs() <= tol
}

fn matte(r: f64, g: f64, b: f64) -> Arc<Material> {
    Arc::new(Material::Lambertian(Lambertian::new(v(r, g, b))))
}

/// What a camera is told, with a right angle of view down the z axis from the origin.
#[derive(Clone, Copy)]
struct Settings {
    aspect_ratio: f64,
    image_width: u32,
    samples_per_pixel: i32,
    max_depth: i32,
    background: Vec3,
    vfov: f64,
    lookfrom: Vec3,
    lookat: Vec3,
    defocus_angle: f64,
    focus_dist: f64,
}

fn settings(width: u32, aspect: f64, spp: i32, depth: i32, background: Vec3) -> Settings {
    Settings {
        aspect_ratio: aspect,
        image_width: width,
        samples_per_pixel: spp,
        max_depth: depth,
        background,
        vfov: 90.0,
        lookfrom: v(0.0, 0.0, 0.0),
        lookat: v(0.0, 0.0, -1.0),
        defocus_angle: 0.0,
        focus_dist: 1.0,
    }
}

fn camera(s: Settings) -> Camera {
    Camera::new(
        fx(s.aspect_ratio),
        s.image_width,
        s.samples_per_pixel,
        s.max_depth,
        fx(s.vfov),
        s.lookfrom,
        s.lookat,
        v(0.0, 1.0, 0.0),
        fx(s.defocus_angle),
        fx(s.focus_dist),
        s.background,
    )
}

fn channels(line: &str) -> [u32; 3] {
    let parts: Vec<u32> = line.split(' ').map(|p| p.parse().unwrap()).collect();
    assert_eq!(parts.len(), 3);
    [parts[0], parts[1], parts[2]]
}

#[test]
fn gamma_is_the_square_root() {
    assert_eq!(linear_to_gamma(fx(0.25)), fx(0.5));
    assert_eq!(linear_to_gamma(Fixed::zero()), Fixed::zero());
    assert_eq!(linear_to_gamma(fx(-4.0)), Fixed::zero());
}

#[test]
fn channels_are_quantised() {
    assert_eq!(channel_byte(Fixed::zero()), 0);
    assert_eq!(channel_byte(fx(-1.0)), 0);
    assert_eq!(channel_byte(fx(0.25)), 128);
    assert_eq!(channel_byte(fx(0.49)), 179);
    assert_eq!(channel_byte(fx(0.64)), 204);
    assert_eq!(channel_byte(fx(0.7)), 214);
    assert_eq!(channel_byte(fx(0.8)), 228);
    assert_eq!(channel_byte(fx(1.0)), 255);
    assert_eq!(channel_byte(fx(50.0)), 255);
    assert_eq!(pixel_bytes(v(0.25, 1.0, 0.0)), (128, 255, 0));
}

#[test]
fn pixels_are_written_as_three_numbers() {
    assert_eq!(write_color(v(0.49, 0.64, 1.0)), "179 204 255");
    assert_eq!(write_color(v(0.0, 0.0, 0.0)), "0 0 0");
    assert_eq!(write_color(v(0.25, 0.0016, 9.0)), "128 10 255");
    assert_eq!(write_color(v(0.7, 0.8, 1.0)), "214 228 255");
}

#[test]
fn camera_looking_down_the_z_axis() {
    let cam = camera(settings(4, 2.0, 4, 7, v(0.1, 0.2, 0.3)));
    assert_eq!(cam.image_width, 4);
    assert_eq!(cam.image_height, 2);
    assert_eq!(cam.samples_per_pixel, 4);
    assert_eq!(cam.sqrt_spp, 2);
    assert_eq!(cam.recip_sqrt_spp, fx(0.5));
    assert_eq!(cam.pixel_samples_scale, fx(0.25));
    assert_eq!(cam.max_depth, 7);
    assert_eq!(cam.background, v(0.1, 0.2, 0.3));
    assert_eq!(cam.center, v(0.0, 0.0, 0.0));
    assert!(near(cam.w, v(0.0, 0.0, 1.0), 1e-9));
    assert!(near(cam.u, v(1.0, 0.0, 0.0), 1e-9));
    assert!(near(cam.v, v(0.0, 1.0, 0.0), 1e-9));
    // A right angle of view at distance one spans a height of two and a width of four.
    assert!(near(cam.pixel_delta_u, v(1.0, 0.0, 0.0), 1e-7));
    assert!(near(cam.pixel_delta_v, v(0.0, -1.0, 0.0), 1e-7));
    assert!(near(cam.pixel00_loc, v(-1.5, 0.5, -1.0), 1e-7));
    assert_eq!(cam.defocus_disk_u, Vec3::zero());
    assert_eq!(cam.defocus_disk_v, Vec3::zero());
}

#[test]
fn image_height_is_rounded_and_at_least_one() {
    assert_eq!(camera(settings(400, 16.0 / 9.0, 1, 1, Vec3::zero())).image_height, 225);
    assert_eq!(camera(settings(16, 16.0 / 9.0, 1, 1, Vec3::zero())).image_height, 9);
    assert_eq!(camera(settings(10, 4.0, 1, 1, Vec3::zero())).image_height, 3);
    assert_eq!(camera(settings(9, 4.0, 1, 1, Vec3::zero())).image_height, 2);
    assert_eq!(camera(settings(1, 100.0, 1, 1, Vec3::zero())).image_height, 1);
    assert_eq!(camera(settings(0, 2.0, 1, 1, Vec3::zero())).image_height, 1);
}

#[test]
fn sample_grid_is_the_whole_root() {
    assert_eq!(camera(settings(4, 2.0, 10, 1, Vec3::zero())).sqrt_spp, 3);
    assert_eq!(camera(settings(4, 2.0, 100, 1, Vec3::zero())).sqrt_spp, 10);
    assert_eq!(camera(settings(4, 2.0, 1, 1, Vec3::zero())).sqrt_spp, 1);
    assert_eq!(camera(settings(4, 2.0, 0, 1, Vec3::zero())).sqrt_spp, 0);
    assert_eq!(camera(settings(4, 2.0, -5, 1, Vec3::zero())).sqrt_spp, 0);
    let cam = camera(settings(4, 2.0, 10, 1, Vec3::zero()));
    assert!((fl(cam.pixel_samples_scale) - 1.0 / 9.0).abs() < 1e-9);
}

#[test]
fn rays_aim_at_their_cell() {
    let cam = camera(settings(4, 2.0, 4, 7, Vec3::zero()));
    let centre = cam.ray_through(1, 0, 0, 0, fx(1.0), fx(1.0), Vec3::zero(), fx(0.5));
    assert_eq!(centre.origin, v(0.0, 0.0, 0.0));
    assert_eq!(centre.time, fx(0.5));
    assert!(near(centre.direction, v(-0.5, 0.5, -1.0), 1e-7));
    let corner = cam.ray_through(1, 0, 0, 0, Fixed::zero(), Fixed::zero(), Vec3::zero(), fx(0.5));
    assert!(near(corner.direction, v(-1.0, 1.0, -1.0), 1e-7));
    let other_cell = cam.ray_through(1, 0, 1, 1, Fixed::zero(), Fixed::zero(), Vec3::zero(), fx(0.5));
    assert!(near(other_cell.direction, v(-0.5, 0.5, -1.0), 1e-7));
    for _ in 0..200 {
        let r = cam.get_ray(3, 1, 1, 0);
        assert_eq!(r.origin, v(0.0, 0.0, 0.0));
        assert!(r.time.raw >= 0 && fl(r.time) < 1.0);
        assert!(fl(r.direction.x) >= 1.5 - 1e-6 && fl(r.direction.x) <= 2.0 + 1e-6);
        assert!(fl(r.direction.y) >= -0.5 - 1e-6 && fl(r.direction.y) <= 1e-6);
    }
}

#[test]
fn open_lens_moves_the_origin_and_keeps_the_aim() {
    let mut s = settings(4, 2.0, 1, 1, Vec3::zero());
    s.defocus_angle = 90.0;
    s.focus_dist = 2.0;
    let cam = camera(s);
    // The tangent of half the angle, times the focus distance.
    let radius = 2.0 * (std::f64::consts::PI / 4.0).tan();
    assert!(near(cam.defocus_disk_u, v(radius, 0.0, 0.0), 1e-6));
    assert!(near(cam.defocus_disk_v, v(0.0, radius, 0.0), 1e-6));
    let r = cam.ray_through(0, 0, 0, 0, fx(0.5), fx(0.5), v(0.5, -0.5, 0.0), Fixed::zero());
    assert!(near(r.origin, v(0.5 * radius, -0.5 * radius, 0.0), 1e-6));
    let aim = r.origin.add(r.direction);
    let closed = camera(settings(4, 2.0, 1, 1, Vec3::zero()));
    let straight = closed.ray_through(0, 0, 0, 0, fx(0.5), fx(0.5), Vec3::zero(), Fixed::zero());
    assert!(near(aim, straight.direction.scale(fx(2.0)), 1e-6));
}

#[test]
fn light_is_combined() {
    assert_eq!(
        combine_skip(v(0.5, 0.0, 1.0), v(0.5, 0.25, 1.0), v(2.0, 4.0, 0.5)),
        v(1.5, 1.0, 1.5)
    );
    assert_eq!(
        combine_pdf(v(0.5, 0.0, 1.0), v(0.5, 0.25, 1.0), fx(0.5), v(2.0, 4.0, 0.5), fx(0.25)),
        v(2.5, 2.0, 2.0)
    );
    assert_eq!(
        combine_pdf(v(0.5, 0.0, 1.0), v(0.5, 0.25, 1.0), fx(0.5), v(2.0, 4.0, 0.5), Fixed::zero()),
        v(0.5, 0.0, 1.0)
    );
}

#[test]
fn rays_bring_back_the_background_the_light_or_nothing() {
    let background = v(0.7, 0.8, 1.0);
    let empty = Hittable::List(HittableList::new());
    let r = Ray::new(v(0.0, 0.0, 0.0), v(0.0, 0.0, -1.0), Fixed::zero());
    assert_eq!(ray_color(&r, 5, &empty, None, background), background);
    assert_eq!(ray_color(&r, 0, &empty, None, background), Vec3::zero());
    assert_eq!(ray_color(&r, -1, &empty, None, background), Vec3::zero());
    let lamp = Hittable::Quad(Quad::new(
        v(-1.0, -1.0, -3.0),
        v(2.0, 0.0, 0.0),
        v(0.0, 2.0, 0.0),
        Arc::new(Material::DiffuseLight(DiffuseLight::from_color(v(4.0, 3.0, 2.0)))),
    ));
    assert_eq!(ray_color(&r, 5, &lamp, None, background), v(4.0, 3.0, 2.0));
    let from_behind = Ray::new(v(0.0, 0.0, -6.0), v(0.0, 0.0, 1.0), Fixed::zero());
    assert_eq!(ray_color(&from_behind, 5, &lamp, None, background), Vec3::zero());
    let wall = Hittable::Quad(Quad::new(
        v(-1.0, -1.0, -3.0), v(2.0, 0.0, 0.0), v(0.0, 2.0, 0.0), matte(0.5, 0.5, 0.5),
    ));
    assert_eq!(ray_color(&r, 1, &wall, None, background), Vec3::zero());
}

#[test]
fn empty_scene_is_all_background() {
    let cam = camera(settings(16, 16.0 / 9.0, 1, 10, v(0.7, 0.8, 1.0)));
    let world = Hittable::List(HittableList::new());
    let lines = cam.render(&world, None);
    assert_eq!(lines.len(), 3 + 16 * 9);
    assert_eq!(lines[0], "P3");
    assert_eq!(lines[1], "16 9");
    assert_eq!(lines[2], "255");
    for line in &lines[3..] {
        assert_eq!(line, "214 228 255");
    }
    let header = cam.header();
    assert_eq!(header, vec!["P3".to_string(), "16 9".to_string(), "255".to_string()]);
    let row = cam.render_row(4, &world, None);
    assert_eq!(row.len(), 16);
}

#[test]
fn empty_scene_with_squared_background_is_179_204_255() {
    let cam = camera(settings(16, 16.0 / 9.0, 1, 10, v(0.49, 0.64, 1.0)));
    let world = Hittable::List(HittableList::new());
    let lines = cam.render(&world, None);
    assert_eq!(lines.len(), 3 + 16 * 9);
    for line in &lines[3..] {
        assert_eq!(line, "179 204 255");
    }
}

#[test]
fn no_samples_give_a_black_image() {
    let cam = camera(settings(3, 1.5, 0, 10, v(0.7, 0.8, 1.0)));
    let world = Hittable::List(HittableList::new());
    let lines = cam.render(&world, None);
    assert_eq!(lines.len(), 3 + 3 * 2);
    for line in &lines[3..] {
        assert_eq!(line, "0 0 0");
    }
}

#[test]
fn diffuse_sphere_over_ground_is_shaded() {
    let mut world = HittableList::new();
    world.add(Hittable::Sphere(Sphere::new(v(0.0, 0.0, -1.0), fx(0.5), matte(0.5, 0.5, 0.5))));
    world.add(Hittable::Sphere(Sphere::new(v(0.0, -100.5, -1.0), fx(100.0), matte(0.5, 0.5, 0.5))));
    let world = Hittable::List(world);
    let cam = camera(settings(400, 16.0 / 9.0, 10, 10, v(0.7, 0.8, 1.0)));
    assert_eq!(cam.image_height, 225);
    let mut sum = 0.0;
    let mut count = 0.0;
    for j in 103..123 {
        for i in 190..210 {
            let c = cam.pixel_color(i, j, &world, None);
            let (r, g, b) = pixel_bytes(c);
            sum += (r as f64 + g as f64 + b as f64) / 3.0 / 255.0;
            count += 1.0;
        }
    }
    let mean = sum / count;
    assert!(mean >= 0.2 && mean <= 0.6, "{}", mean);
}

fn cornell_box() -> (Hittable, Hittable) {
    let red = matte(0.65, 0.05, 0.05);
    let white = matte(0.73, 0.73, 0.73);
    let green = matte(0.12, 0.45, 0.15);
    let light = Arc::new(Material::DiffuseLight(DiffuseLight::from_color(v(15.0, 15.0, 15.0))));
    let mut world = HittableList::new();
    world.add(Hittable::Quad(Quad::new(v(555.0, 0.0, 0.0), v(0.0, 555.0, 0.0), v(0.0, 0.0, 555.0), green)));
    world.add(Hittable::Quad(Quad::new(v(0.0, 0.0, 0.0), v(0.0, 555.0, 0.0), v(0.0, 0.0, 555.0), red)));
    world.add(Hittable::Quad(Quad::new(
        v(343.0, 554.0, 332.0), v(-130.0, 0.0, 0.0), v(0.0, 0.0, -105.0), light.clone(),
    )));
    world.add(Hittable::Quad(Quad::new(v(0.0, 0.0, 0.0), v(555.0, 0.0, 0.0), v(0.0, 0.0, 555.0), white.clone())));
    world.add(Hittable::Quad(Quad::new(
        v(555.0, 555.0, 555.0), v(-555.0, 0.0, 0.0), v(0.0, 0.0, -555.0), white.clone(),
    )));
    world.add(Hittable::Quad(Quad::new(v(0.0, 0.0, 555.0), v(555.0, 0.0, 0.0), v(0.0, 555.0, 0.0), white.clone())));
    let w1 = white.clone();
    let box1 = make_box(v(0.0, 0.0, 0.0), v(165.0, 330.0, 165.0), move || w1.clone());
    let box1 = Hittable::RotateY(RotateY::new(Box::new(box1), fx(15.0)));
    world.add(Hittable::Translate(Translate::new(Box::new(box1), v(265.0, 0.0, 295.0))));
    let w2 = white.clone();
    let box2 = make_box(v(0.0, 0.0, 0.0), v(165.0, 165.0, 165.0), move || w2.clone());
    let box2 = Hittable::RotateY(RotateY::new(Box::new(box2), fx(-18.0)));
    world.add(Hittable::Translate(Translate::new(Box::new(box2), v(130.0, 0.0, 65.0))));
    let mut lights = HittableList::new();
    lights.add(Hittable::Quad(Quad::new(
        v(343.0, 554.0, 332.0), v(-130.0, 0.0, 0.0), v(0.0, 0.0, -105.0), light,
    )));
    (Hittable::List(world), Hittable::List(lights))
}

#[test]
fn cornell_box_is_lit_without_a_hue_and_red_at_the_left_wall() {
    let (world, lights) = cornell_box();
    let cam = Camera::new(
        fx(1.0),
        200,
        50,
        20,
        fx(40.0),
        v(278.0, 278.0, -800.0),
        v(278.0, 278.0, 0.0),
        v(0.0, 1.0, 0.0),
        Fixed::zero(),
        fx(10.0),
        Vec3::zero(),
    );
    assert_eq!(cam.image_height, 200);
    // The middle of the image shows the white back wall and boxes.
    let mut mid = [0.0f64; 3];
    for (i, j) in [(100, 100), (99, 100), (100, 99), (101, 100), (100, 101)] {
        let c = cam.pixel_color(i, j, &world, Some(&lights));
        mid[0] += fl(c.x);
        mid[1] += fl(c.y);
        mid[2] += fl(c.z);
    }
    assert!(mid[0] > 0.0 && mid[1] > 0.0 && mid[2] > 0.0);
    assert!(mid[0] / 5.0 < 1.0 && mid[1] / 5.0 < 1.0);
    let spread = (mid[0] - mid[1]).abs() / mid[0].max(mid[1]);
    assert!(spread < 0.5, "{:?}", mid);
    // The wall at x = 0 is red; the camera looks along +z with +x to its left.
    let mut wall = [0.0f64; 3];
    for j in [60, 100, 140] {
        for i in [4, 8, 12] {
            let left = cam.pixel_color(i, j, &world, Some(&lights));
            let right = cam.pixel_color(199 - i, j, &world, Some(&lights));
            // One of the two sides is the red wall; take the redder.
            let c = if fl(left.x) - fl(left.y) > fl(right.x) - fl(right.y) { left } else { right };
            wall[0] += fl(c.x);
            wall[1] += fl(c.y);
            wall[2] += fl(c.z);
        }
    }
    assert!(wall[0] > wall[1] && wall[0] > wall[2], "{:?}", wall);
}

#[test]
fn glass_sphere_turns_the_view_upside_down() {
    // Light from above, dark from below: a tall lamp over the scene and a
    // black floor under it. Through the glass the two change places.
    let mut world = HittableList::new();
    world.add(Hittable::Sphere(Sphere::new(
        v(0.0, 0.0, -3.0), fx(1.0), Arc::new(Material::Dielectric(Dielectric::new(fx(1.5)))),
    )));
    world.add(Hittable::Quad(Quad::new(
        v(-500.0, 50.0, -500.0), v(1000.0, 0.0, 0.0), v(0.0, 0.0, 1000.0),
        Arc::new(Material::DiffuseLight(DiffuseLight::from_color(v(1.0, 1.0, 1.0)))),
    )));
    world.add(Hittable::Quad(Quad::new(
        v(-500.0, -50.0, -500.0), v(1000.0, 0.0, 0.0), v(0.0, 0.0, 1000.0),
        Arc::new(Material::DiffuseLight(DiffuseLight::from_color(v(0.0, 0.0, 0.0)))),
    )));
    let world = Hittable::List(world);
    let mut s = settings(100, 1.0, 30, 20, v(0.5, 0.5, 0.5));
    s.vfov = 60.0;
    let cam = camera(s);
    let brightness = |i: u32, j: u32| {
        let mut sum = 0.0;
        for di in 0..3 {
            let c = cam.pixel_color(i + di, j, &world, None);
            sum += fl(c.x) + fl(c.y) + fl(c.z);
        }
        sum / 9.0
    };
    // Beside the sphere the upper half is bright and the lower half dark.
    assert!(brightness(2, 10) > 0.9);
    assert!(brightness(2, 90) < 0.1);
    assert!(brightness(95, 10) > 0.9);
    // Through the sphere the upper part shows the dark floor and the lower part the lamp.
    assert!(brightness(49, 38) < 0.4, "{}", brightness(49, 38));
    assert!(brightness(49, 62) > 0.6, "{}", brightness(49, 62));
}

#[test]
fn clean_mirror_shows_the_background() {
    let background = v(0.3, 0.6, 0.9);
    let mirror = Hittable::Quad(Quad::new(
        v(-10.0, -10.0, -2.0), v(20.0, 0.0, 0.0), v(0.0, 20.0, 0.0),
        Arc::new(Material::Metal(Metal::new(v(1.0, 1.0, 1.0), Fixed::zero()))),
    ));
    let empty = Hittable::List(HittableList::new());
    let cam = camera(settings(20, 1.0, 4, 10, background));
    let with_mirror = cam.render(&mirror, None);
    let without = cam.render(&empty, None);
    assert_eq!(with_mirror.len(), without.len());
    for (a, b) in with_mirror.iter().zip(without.iter()).skip(3) {
        let x = channels(a);
        let y = channels(b);
        for k in 0..3 {
            assert!((x[k] as i64 - y[k] as i64).abs() <= 1, "{} {}", a, b);
        }
    }
}

#[test]
fn smoke_box_tints_the_wall_behind_it() {
    let mut world = HittableList::new();
    world.add(Hittable::Quad(Quad::new(
        v(-300.0, -300.0, -400.0), v(600.0, 0.0, 0.0), v(0.0, 600.0, 0.0),
        Arc::new(Material::DiffuseLight(DiffuseLight::from_color(v(1.0, 0.0, 0.0)))),
    )));
    let boundary = make_box(v(-100.0, -100.0, -300.0), v(100.0, 100.0, -150.0), || {
        Arc::new(Material::Lambertian(Lambertian::new(Vec3::zero())))
    });
    world.add(Hittable::ConstantMedium(ConstantMedium::from_color(
        Box::new(boundary), fx(0.01), v(1.0, 1.0, 1.0),
    )));
    let world = Hittable::List(world);
    let cam = camera(settings(40, 1.0, 16, 10, v(1.0, 1.0, 1.0)));
    let lines = cam.render(&world, None);
    // The box fills the middle of the image, the wall shows in a ring around it,
    // and the corners show the background.
    let mut tinted = 0;
    let mut red = 0;
    for j in 0..40 {
        for i in 0..40 {
            let c = channels(&lines[3 + j * 40 + i]);
            let in_the_middle = (10..30).contains(&i) && (10..30).contains(&j);
            if in_the_middle && (c[1] > 0 || c[2] > 0) {
                tinted += 1;
            }
            if c == [255, 0, 0] {
                red += 1;
            }
        }
    }
    let total = 40 * 40;
    assert!(tinted * 5 > total, "{} of {}", tinted, total);
    assert!(red > 0);
}

#[test]
fn pixels_come_row_by_row_from_the_top_left() {
    // A lamp fills the upper left quarter of the view.
    let lamp = Hittable::Quad(Quad::new(
        v(-10.0, 0.0, -1.0),
        v(10.0, 0.0, 0.0),
        v(0.0, 10.0, 0.0),
        Arc::new(Material::DiffuseLight(DiffuseLight::from_color(v(1.0, 1.0, 1.0)))),
    ));
    let cam = camera(settings(4, 2.0, 1, 5, Vec3::zero()));
    let lines = cam.render(&lamp, None);
    assert_eq!(
        lines,
        vec![
            "P3", "4 2", "255", "255 255 255", "255 255 255", "0 0 0", "0 0 0", "0 0 0", "0 0 0",
            "0 0 0", "0 0 0",
        ]
    );
    assert_eq!(cam.render_row(0, &lamp, None), vec!["255 255 255", "255 255 255", "0 0 0", "0 0 0"]);
    assert_eq!(cam.render_row(1, &lamp, None), vec!["0 0 0", "0 0 0", "0 0 0", "0 0 0"]);
}

#[test]
fn numbers_are_written_in_decimal() {
    assert_eq!(camera(settings(1234, 1.0, 1, 1, Vec3::zero())).header()[1], "1234 1234");
    assert_eq!(camera(settings(10, 0.01, 1, 1, Vec3::zero())).header()[1], "10 1000");
    assert_eq!(write_color(v(0.0016, 0.16, 1.0)), "10 102 255");
}
