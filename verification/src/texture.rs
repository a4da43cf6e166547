//! Textures: a colour for each surface coordinate `(u, v)` and point `p`.

use crate::color::Color;
use crate::fixed::{Fixed, ONE_RAW};
use crate::perlin::Perlin;
use crate::vec3::{Point3, Vec3};
use vstd::prelude::*;

verus! {

/// One colour everywhere.
pub struct SolidColor {
    pub albedo: Color,
}

impl SolidColor {
    pub fn new(albedo: Color) -> (r: SolidColor)
        ensures
            r.albedo == albedo,
    {
        SolidColor { albedo }
    }

    pub fn from_rgb(red: Fixed, green: Fixed, blue: Fixed) -> (r: SolidColor)
        ensures
            r.albedo == Vec3::spec_new(red, green, blue),
    {
        SolidColor { albedo: Color::new(red, green, blue) }
    }

    pub fn value(&self, u: Fixed, v: Fixed, p: Point3) -> (r: Color)
        ensures
            r == self.albedo,
    {
        self.albedo
    }
}

/// A checker pattern in space: cubes of side `1 / inv_scale` that alternate
/// between two textures.
pub struct CheckerTexture {
    pub inv_scale: Fixed,
    pub even: Box<Texture>,
    pub odd: Box<Texture>,
}

impl CheckerTexture {
    /// Whether `p` lies in a cube of the even texture: the whole parts of
    /// its three scaled coordinates add up to an even number.
    pub open spec fn spec_is_even(&self, p: Point3) -> bool {
        (self.inv_scale.mul(p.x).spec_floor() + self.inv_scale.mul(p.y).spec_floor()
            + self.inv_scale.mul(p.z).spec_floor()) % 2 == 0
    }

    pub fn new(scale: Fixed, even: Box<Texture>, odd: Box<Texture>) -> (r: CheckerTexture)
        ensures
            r.inv_scale == Fixed::spec_one().spec_div(scale),
            r.even == even,
            r.odd == odd,
    {
        CheckerTexture { inv_scale: Fixed::one().div(scale), even, odd }
    }

    pub fn from_colors(scale: Fixed, c1: Color, c2: Color) -> (r: CheckerTexture)
        ensures
            r.inv_scale == Fixed::spec_one().spec_div(scale),
            *r.even == Texture::Solid(SolidColor { albedo: c1 }),
            *r.odd == Texture::Solid(SolidColor { albedo: c2 }),
    {
        CheckerTexture {
            inv_scale: Fixed::one().div(scale),
            even: Box::new(Texture::Solid(SolidColor::new(c1))),
            odd: Box::new(Texture::Solid(SolidColor::new(c2))),
        }
    }

    #[verifier::when_used_as_spec(spec_is_even)]
    pub fn is_even(&self, p: Point3) -> (r: bool)
        ensures
            r == self.spec_is_even(p),
    {
        let x_integer: i64 = self.inv_scale.mul(p.x).floor();
        let y_integer: i64 = self.inv_scale.mul(p.y).floor();
        let z_integer: i64 = self.inv_scale.mul(p.z).floor();
        (x_integer + y_integer + z_integer) % 2 == 0
    }
}

/// A raster of 8-bit RGB pixels, row by row from the top.
pub struct ImageTexture {
    width: u32,
    height: u32,
    data: Vec<u8>,
}

/// The colour shown where there is no image.
pub open spec fn spec_missing_image_color() -> Color {
    Vec3 { x: Fixed::zero(), y: Fixed::one(), z: Fixed::one() }
}

/// The colour with channels `r/255`, `g/255`, `b/255`.
pub open spec fn spec_color_of_bytes(r: u8, g: u8, b: u8) -> Color {
    Vec3 {
        x: Fixed::from_ratio(r as i32, 255),
        y: Fixed::from_ratio(g as i32, 255),
        z: Fixed::from_ratio(b as i32, 255),
    }
}

/// The pixel that the coordinate `t` of `[0, 1]` picks among `count`:
/// `⌊t·count⌋`, but at most the last.
pub open spec fn spec_pixel_index(t: Fixed, count: u32) -> int {
    let i = (t@ * count) / (ONE_RAW as int);
    if i > count - 1 {
        count - 1
    } else {
        i
    }
}

fn pixel_index(t: Fixed, count: u32) -> (r: u32)
    requires
        0 <= t@ <= ONE_RAW,
        count > 0,
    ensures
        r == spec_pixel_index(t, count),
        r < count,
{
    assert(0 <= t@ * count <= 0x1_0000_0000 * 0xffff_ffff) by (nonlinear_arith)
        requires
            0 <= t@ <= 0x1_0000_0000,
            0 <= count <= 0xffff_ffff,
    ;
    let scaled: u64 = (t.raw as u64 * count as u64) / (ONE_RAW as u64);
    if scaled > (count - 1) as u64 {
        count - 1
    } else {
        scaled as u32
    }
}

impl ImageTexture {
    #[verifier::type_invariant]
    spec fn raster_is_whole(self) -> bool {
        &&& self.data@.len() == 3 * self.width * self.height
        &&& self.height > 0 ==> self.width > 0
    }

    pub closed spec fn spec_width(&self) -> u32 {
        self.width
    }

    pub closed spec fn spec_height(&self) -> u32 {
        self.height
    }

    /// The bytes of the raster: three for each pixel.
    pub closed spec fn spec_data(&self) -> Seq<u8> {
        self.data@
    }

    /// The colour of the image at `(u, v)`: `u` runs from the left edge to
    /// the right, `v` from the bottom edge to the top, both limited to
    /// `[0, 1]`. An image without rows is cyan everywhere.
    pub open spec fn spec_value(&self, u: Fixed, v: Fixed) -> Color {
        if self.spec_height() == 0 {
            spec_missing_image_color()
        } else {
            let unit = crate::interval::Interval { min: Fixed::zero(), max: Fixed::one() };
            let i = spec_pixel_index(unit.spec_clamp(u), self.spec_width());
            let j = spec_pixel_index(Fixed::one().sub(unit.spec_clamp(v)), self.spec_height());
            let at = 3 * (j * self.spec_width() + i);
            spec_color_of_bytes(
                self.spec_data()[at],
                self.spec_data()[at + 1],
                self.spec_data()[at + 2],
            )
        }
    }

    /// The image of `width` by `height` pixels whose bytes are `data`. Where
    /// `data` does not hold three bytes for each pixel, or the image has no
    /// columns, the result is the image without rows.
    pub fn new(width: u32, height: u32, data: Vec<u8>) -> (r: ImageTexture)
        ensures
            data@.len() == 3 * width * height && width > 0 ==> r.spec_width() == width
                && r.spec_height() == height && r.spec_data() == data@,
            !(data@.len() == 3 * width * height && width > 0) ==> r.spec_height() == 0,
    {
        assert(0 <= 3 * width * height <= 3 * 0xffff_ffff * 0xffff_ffff) by (nonlinear_arith)
            requires
                0 <= width <= 0xffff_ffff,
                0 <= height <= 0xffff_ffff,
        ;
        let wanted: u128 = 3 * (width as u128) * (height as u128);
        if width > 0 && data.len() as u128 == wanted {
            ImageTexture { width, height, data }
        } else {
            ImageTexture { width: 0, height: 0, data: Vec::new() }
        }
    }

    pub fn value(&self, u: Fixed, v: Fixed, p: Point3) -> (r: Color)
        ensures
            r == self.spec_value(u, v),
    {
        proof {
            use_type_invariant(self);
        }
        if self.height == 0 {
            return Color::new(Fixed::zero(), Fixed::one(), Fixed::one());
        }
        let unit = crate::interval::Interval::new(Fixed::zero(), Fixed::one());
        let u = unit.clamp(u);
        let v = Fixed::one().sub(unit.clamp(v));
        let i = pixel_index(u, self.width);
        let j = pixel_index(v, self.height);
        let len: usize = self.data.len();
        proof {
            let w = self.width as int;
            let h = self.height as int;
            let row = j as int * w;
            assert(0 <= row && row + w <= w * h && 3 * w * h == 3 * (w * h)) by (nonlinear_arith)
                requires
                    row == j as int * w,
                    0 <= j < h,
                    0 <= w,
            ;
            assert(3 * (row + i) + 2 < self.data@.len());
            assert(row == j * self.width);
            assert(self.data@.len() == len);
        }
        let row_start: usize = j as usize * self.width as usize;
        let at: usize = 3 * (row_start + i as usize);
        Color::new(
            Fixed::from_ratio(self.data[at] as i32, 255),
            Fixed::from_ratio(self.data[at + 1] as i32, 255),
            Fixed::from_ratio(self.data[at + 2] as i32, 255),
        )
    }
}

/// White scaled by lattice noise at the scaled point.
pub struct PerlinNoise {
    pub noise: Perlin,
    pub scale: Fixed,
}

impl PerlinNoise {
    pub open spec fn spec_value(&self, p: Point3) -> Color {
        Vec3 { x: Fixed::one(), y: Fixed::one(), z: Fixed::one() }.scale(
            self.noise.spec_noise(p.scale(self.scale)),
        )
    }

    /// A noise texture with a freshly drawn table.
    pub fn new(scale: Fixed) -> (r: PerlinNoise)
        ensures
            r.scale == scale,
            r.noise.well_made(),
    {
        PerlinNoise { noise: Perlin::new(), scale }
    }

    pub fn value(&self, u: Fixed, v: Fixed, p: Point3) -> (r: Color)
        ensures
            r == self.spec_value(p),
    {
        Color::new(Fixed::one(), Fixed::one(), Fixed::one()).scale(
            self.noise.noise(p.scale(self.scale)),
        )
    }
}

pub enum Texture {
    Solid(SolidColor),
    Checker(CheckerTexture),
    Image(ImageTexture),
    Noise(PerlinNoise),
}

impl Texture {
    /// The colour of the texture at surface coordinates `(u, v)` and point
    /// `p`.
    pub open spec fn spec_value(&self, u: Fixed, v: Fixed, p: Point3) -> Color
        decreases self,
    {
        match self {
            Texture::Solid(t) => t.albedo,
            Texture::Checker(t) => if t.spec_is_even(p) {
                t.even.spec_value(u, v, p)
            } else {
                t.odd.spec_value(u, v, p)
            },
            Texture::Image(t) => t.spec_value(u, v),
            Texture::Noise(t) => t.spec_value(p),
        }
    }

    pub fn value(&self, u: Fixed, v: Fixed, p: Point3) -> (r: Color)
        ensures
            r == self.spec_value(u, v, p),
        decreases self,
    {
        match self {
            Texture::Solid(t) => t.value(u, v, p),
            Texture::Checker(t) => if t.is_even(p) {
                t.even.value(u, v, p)
            } else {
                t.odd.value(u, v, p)
            },
            Texture::Image(t) => t.value(u, v, p),
            Texture::Noise(t) => t.value(u, v, p),
        }
    }
}

} // verus!
