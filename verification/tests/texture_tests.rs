use pathtracer::fixed::Fixed;
use pathtracer::perlin::{generate_perm, trilinear_interp, Perlin};
use pathtracer::texture::{CheckerTexture, ImageTexture, PerlinNoise, SolidColor, Texture};
use pathtracer::vec3::Vec3;

fn fx(x: f64) -> Fixed {
    Fixed::from_raw((x * 4294967296.0).round() as i64)
}

fn fl(x: Fixed) -> f64 {
    x.raw as f64 / 4294967296.0
}

fn v(x: f64, y: f64, z: f64) -> Vec3 {
    Vec3::new(fx(x), fx(y), fx(z))
}

fn byte(b: i32) -> Fixed {
    Fixed::from_ratio(b, 255)
}

#[test]
fn solid_colour_is_the_same_everywhere() {
    let s = SolidColor::new(v(0.1, 0.2, 0.3));
    assert_eq!(s.value(fx(0.0), fx(0.0), v(0.0, 0.0, 0.0)), v(0.1, 0.2, 0.3));
    assert_eq!(s.value(fx(0.7), fx(0.9), v(5.0, -2.0, 1.0)), v(0.1, 0.2, 0.3));
    let t = Texture::Solid(SolidColor::from_rgb(fx(1.0), fx(0.5), fx(0.25)));
    assert_eq!(t.value(fx(0.3), fx(0.3), v(1.0, 1.0, 1.0)), v(1.0, 0.5, 0.25));
}

#[test]
fn checker_alternates_by_cube() {
    let c = CheckerTexture::from_colors(fx(0.5), v(1.0, 1.0, 1.0), v(0.0, 0.0, 0.0));
    assert_eq!(c.inv_scale, fx(2.0));
    assert!(c.is_even(v(0.1, 0.1, 0.1)));
    assert!(!c.is_even(v(0.6, 0.1, 0.1)));
    assert!(c.is_even(v(0.6, 0.6, 0.1)));
    assert!(!c.is_even(v(0.6, 0.6, 0.6)));
    assert!(!c.is_even(v(-0.1, 0.1, 0.1)));
    assert!(c.is_even(v(-0.1, -0.1, 0.1)));
    assert!(!c.is_even(v(-0.6, -0.1, 0.1)));
    let t = Texture::Checker(c);
    assert_eq!(t.value(fx(0.0), fx(0.0), v(0.1, 0.1, 0.1)), v(1.0, 1.0, 1.0));
    assert_eq!(t.value(fx(0.0), fx(0.0), v(0.6, 0.1, 0.1)), v(0.0, 0.0, 0.0));
}

#[test]
fn checker_of_textures_nests() {
    let inner = CheckerTexture::from_colors(fx(1.0), v(1.0, 0.0, 0.0), v(0.0, 1.0, 0.0));
    let outer = CheckerTexture::new(
        fx(4.0),
        Box::new(Texture::Checker(inner)),
        Box::new(Texture::Solid(SolidColor::new(v(0.0, 0.0, 1.0)))),
    );
    assert_eq!(outer.inv_scale, fx(0.25));
    let t = Texture::Checker(outer);
    assert_eq!(t.value(fx(0.0), fx(0.0), v(0.5, 0.5, 0.5)), v(1.0, 0.0, 0.0));
    assert_eq!(t.value(fx(0.0), fx(0.0), v(1.5, 0.5, 0.5)), v(0.0, 1.0, 0.0));
    assert_eq!(t.value(fx(0.0), fx(0.0), v(4.5, 0.5, 0.5)), v(0.0, 0.0, 1.0));
}

fn two_by_three() -> ImageTexture {
    // Two columns, three rows; the red channel counts the pixels from the top left.
    let mut data = Vec::new();
    for k in 0..6u8 {
        data.push(k * 10);
        data.push(100 + k);
        data.push(200);
    }
    ImageTexture::new(2, 3, data)
}

#[test]
fn image_is_looked_up_from_the_bottom_left() {
    let img = two_by_three();
    let p = v(0.0, 0.0, 0.0);
    // v = 1 is the top row, u = 0 the left column.
    assert_eq!(img.value(fx(0.0), fx(1.0), p), Vec3::new(byte(0), byte(100), byte(200)));
    assert_eq!(img.value(fx(0.75), fx(1.0), p), Vec3::new(byte(10), byte(101), byte(200)));
    assert_eq!(img.value(fx(0.25), fx(0.5), p), Vec3::new(byte(20), byte(102), byte(200)));
    assert_eq!(img.value(fx(0.25), fx(0.1), p), Vec3::new(byte(40), byte(104), byte(200)));
    // The far edges fall into the last column and the last row.
    assert_eq!(img.value(fx(1.0), fx(0.0), p), Vec3::new(byte(50), byte(105), byte(200)));
    // Coordinates beyond the image are pulled back to its edge.
    assert_eq!(img.value(fx(7.0), fx(-3.0), p), Vec3::new(byte(50), byte(105), byte(200)));
    assert_eq!(img.value(fx(-7.0), fx(3.0), p), Vec3::new(byte(0), byte(100), byte(200)));
    let t = Texture::Image(two_by_three());
    assert_eq!(t.value(fx(0.0), fx(1.0), p), Vec3::new(byte(0), byte(100), byte(200)));
}

#[test]
fn image_of_full_white_is_one() {
    let img = ImageTexture::new(1, 1, vec![255, 255, 255]);
    let c = img.value(fx(0.5), fx(0.5), v(0.0, 0.0, 0.0));
    assert_eq!(c, v(1.0, 1.0, 1.0));
}

#[test]
fn image_with_more_columns_than_rows_reaches_every_row_and_column() {
    let mut data = Vec::new();
    for k in 0..8u8 {
        data.push(k);
        data.push(0);
        data.push(0);
    }
    let wide = ImageTexture::new(4, 2, data.clone());
    assert_eq!(wide.value(fx(1.0), fx(0.0), v(0.0, 0.0, 0.0)).x, byte(7));
    let tall = ImageTexture::new(2, 4, data);
    assert_eq!(tall.value(fx(1.0), fx(0.0), v(0.0, 0.0, 0.0)).x, byte(7));
    assert_eq!(tall.value(fx(0.0), fx(0.0), v(0.0, 0.0, 0.0)).x, byte(6));
}

#[test]
fn missing_image_is_cyan() {
    let cyan = v(0.0, 1.0, 1.0);
    let p = v(0.0, 0.0, 0.0);
    assert_eq!(ImageTexture::new(0, 0, vec![]).value(fx(0.5), fx(0.5), p), cyan);
    assert_eq!(ImageTexture::new(2, 0, vec![]).value(fx(0.5), fx(0.5), p), cyan);
    assert_eq!(ImageTexture::new(0, 2, vec![]).value(fx(0.5), fx(0.5), p), cyan);
    // Bytes that do not fill the raster count as no image.
    assert_eq!(ImageTexture::new(2, 2, vec![1, 2, 3]).value(fx(0.5), fx(0.5), p), cyan);
    assert_eq!(ImageTexture::new(1, 1, vec![1, 2, 3, 4]).value(fx(0.5), fx(0.5), p), cyan);
}

#[test]
fn permutation_holds_every_number_once() {
    let mut moved = false;
    for _ in 0..5 {
        let p = generate_perm();
        assert_eq!(p.len(), 256);
        let mut seen = [false; 256];
        for (i, x) in p.iter().enumerate() {
            assert!(!seen[*x as usize]);
            seen[*x as usize] = true;
            if *x as usize != i {
                moved = true;
            }
        }
        assert!(seen.iter().all(|s| *s));
    }
    assert!(moved);
    assert_ne!(generate_perm(), generate_perm());
}

#[test]
fn interpolation_between_equal_corners() {
    // With the same direction at every corner the result is the mean of the
    // dot products, weighted by the smoothed shares.
    let c = vec![v(1.0, 0.0, 0.0); 8];
    assert_eq!(trilinear_interp(&c, fx(0.0), fx(0.0), fx(0.0)), Fixed::zero());
    // At u = 1/2 the shares are equal and the corners pull with +1/2 and -1/2.
    assert_eq!(trilinear_interp(&c, fx(0.5), fx(0.0), fx(0.0)), Fixed::zero());
    // At u = 1/4 the share of the far corner is 5/32.
    let got = trilinear_interp(&c, fx(0.25), fx(0.0), fx(0.0));
    assert_eq!(got, fx(27.0 / 32.0 * 0.25 + 5.0 / 32.0 * -0.75));
}

#[test]
fn noise_is_fixed_for_a_table_and_bounded() {
    let n = Perlin::new();
    let mut varied = false;
    let mut last = Fixed::zero();
    for i in 0..200 {
        let p = v(i as f64 * 0.37 - 20.0, i as f64 * 0.11, 3.0 - i as f64 * 0.23);
        let a = n.noise(p);
        assert_eq!(a, n.noise(p));
        assert!(fl(a).abs() <= 1.8);
        if a != last {
            varied = true;
        }
        last = a;
        let t = n.turb(p, 7);
        assert!(t.raw >= 0);
        assert_eq!(t, n.turb(p, 7));
        assert_eq!(n.turb(p, 1), a.abs());
        assert_eq!(n.turb(p, 0), Fixed::zero());
        assert_eq!(n.turb(p, -3), Fixed::zero());
    }
    assert!(varied);
    // On the lattice every corner vector starts or ends at the point.
    assert_eq!(n.noise(v(3.0, -2.0, 7.0)), Fixed::zero());
}

#[test]
fn noise_texture_is_grey() {
    let t = PerlinNoise::new(fx(4.0));
    assert_eq!(t.scale, fx(4.0));
    let p = v(0.3, 0.8, -1.7);
    let c = t.value(fx(0.0), fx(0.0), p);
    assert_eq!(c.x, c.y);
    assert_eq!(c.y, c.z);
    assert_eq!(c.x, t.noise.noise(p.scale(fx(4.0))));
    let tex = Texture::Noise(t);
    assert_eq!(tex.value(fx(0.5), fx(0.5), p), c);
}
