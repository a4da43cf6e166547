//! Materials: what a surface sends back along a ray, and where it sends the
//! ray on.

use crate::color::Color;
use crate::fixed::{Fixed, ONE_RAW, PI_RAW};
use crate::hit_record::HitRecord;
use crate::pdf::{spec_uniform_sphere_density, uniform_sphere_density, CosinePdf, Pdf, SpherePdf};
use crate::ray::Ray;
use crate::sampling::random_unit;
use crate::texture::{SolidColor, Texture};
use crate::vec3::{
    dot, is_nearly_unit, is_unit_draw, random_unit_vector, reflect, refract, spec_x_axis,
    unit_vector, Point3, Vec3,
};
use std::sync::Arc;
use vstd::prelude::*;

verus! {

/// How a material sends a ray on: along one given ray, or in a direction to
/// be drawn from a density.
pub enum ScatterRecord<'a> {
    SkipPdf { attenuation: Color, ray: Ray },
    Pdf { attenuation: Color, pdf: Pdf<'a> },
}

/// A matte surface that scatters by the cosine law.
pub struct Lambertian {
    pub tex: Arc<Texture>,
}

/// A mirror, blurred by `fuzz`.
pub struct Metal {
    pub albedo: Color,
    pub fuzz: Fixed,
}

/// Clear matter that refracts, such as glass.
pub struct Dielectric {
    pub refraction_index: Fixed,
}

/// A surface that shines on its outer side and scatters nothing.
pub struct DiffuseLight {
    pub tex: Arc<Texture>,
}

/// Matter that scatters equally in all directions, for smoke and fog.
pub struct Isotropic {
    pub tex: Arc<Texture>,
}

pub enum Material {
    Lambertian(Lambertian),
    Metal(Metal),
    Dielectric(Dielectric),
    DiffuseLight(DiffuseLight),
    Isotropic(Isotropic),
}

/// The colour black.
pub open spec fn spec_black() -> Color {
    Vec3 { x: Fixed::zero(), y: Fixed::zero(), z: Fixed::zero() }
}

/// The colour white.
pub open spec fn spec_white() -> Color {
    Vec3 { x: Fixed::one(), y: Fixed::one(), z: Fixed::one() }
}

/// The fifth power of `x`.
pub open spec fn spec_fifth_power(x: Fixed) -> Fixed {
    x.mul(x).mul(x).mul(x).mul(x)
}

/// Schlick's approximation of the share of light that a clear surface
/// reflects: `r0 + (1 - r0)·(1 - cosine)⁵` with
/// `r0 = ((1 - index) / (1 + index))²`.
pub open spec fn spec_reflectance(cosine: Fixed, refraction_index: Fixed) -> Fixed {
    let root = Fixed::one().sub(refraction_index).div(Fixed::one().add(refraction_index));
    let r0 = root.mul(root);
    r0.add(Fixed::one().sub(r0).mul(spec_fifth_power(Fixed::one().sub(cosine))))
}

#[verifier::when_used_as_spec(spec_reflectance)]
pub fn reflectance(cosine: Fixed, refraction_index: Fixed) -> (r: Fixed)
    ensures
        r == spec_reflectance(cosine, refraction_index),
{
    let root = Fixed::one().sub(refraction_index).div(Fixed::one().add(refraction_index));
    let r0 = root.mul(root);
    let x = Fixed::one().sub(cosine);
    r0.add(Fixed::one().sub(r0).mul(x.mul(x).mul(x).mul(x).mul(x)))
}

impl Lambertian {
    pub fn new(albedo: Color) -> (r: Lambertian)
        ensures
            *r.tex == Texture::Solid(SolidColor { albedo }),
    {
        Lambertian { tex: Arc::new(Texture::Solid(SolidColor::new(albedo))) }
    }

    pub fn from_texture(tex: Arc<Texture>) -> (r: Lambertian)
        ensures
            r.tex == tex,
    {
        Lambertian { tex }
    }
}

impl Metal {
    pub fn new(albedo: Color, fuzz: Fixed) -> (r: Metal)
        ensures
            r.albedo == albedo,
            r.fuzz == fuzz,
    {
        Metal { albedo, fuzz }
    }

    /// The mirrored ray, its unit direction moved by `fuzz` times the
    /// direction `blur`; nothing where the moved direction points into the
    /// surface.
    pub open spec fn spec_scatter_with<'a>(&self, r_in: Ray, rec: HitRecord, blur: Vec3) -> Option<
        ScatterRecord<'a>,
    > {
        let reflected = unit_vector(reflect(r_in.direction, rec.normal)).add(blur.scale(self.fuzz));
        if dot(reflected, rec.normal)@ > 0 {
            Some(
                ScatterRecord::SkipPdf {
                    attenuation: self.albedo,
                    ray: Ray { origin: rec.p, direction: reflected, time: r_in.time },
                },
            )
        } else {
            None
        }
    }

    pub fn scatter_with(&self, r_in: &Ray, rec: &HitRecord, blur: Vec3) -> (r: Option<
        ScatterRecord<'static>,
    >)
        ensures
            r == self.spec_scatter_with(*r_in, *rec, blur),
    {
        let reflected = reflect(r_in.direction(), rec.normal);
        let reflected = unit_vector(reflected).add(blur.scale(self.fuzz));
        let scattered = Ray::new(rec.p, reflected, r_in.time());
        if dot(scattered.direction(), rec.normal).raw > 0 {
            Some(ScatterRecord::SkipPdf { attenuation: self.albedo, ray: scattered })
        } else {
            None
        }
    }
}

impl Dielectric {
    pub fn new(refraction_index: Fixed) -> (r: Dielectric)
        ensures
            r.refraction_index == refraction_index,
    {
        Dielectric { refraction_index }
    }

    /// The ray refracted by Snell's law, or mirrored where the angle allows
    /// no refraction or where the reflectance exceeds the fraction `chance`.
    /// The light is not dimmed.
    pub open spec fn spec_scatter_with<'a>(&self, r_in: Ray, rec: HitRecord, chance: Fixed)
        -> ScatterRecord<'a> {
        let ri = if rec.front_face {
            Fixed::one().div(self.refraction_index)
        } else {
            self.refraction_index
        };
        let unit_direction = unit_vector(r_in.direction);
        let cos_theta = dot(unit_direction.neg(), rec.normal).min(Fixed::one());
        let sin_theta = Fixed::one().sub(cos_theta.mul(cos_theta)).sqrt();
        let cannot_refract = ri.mul(sin_theta)@ > ONE_RAW;
        let direction = if cannot_refract || spec_reflectance(cos_theta, ri)@ > chance@ {
            reflect(unit_direction, rec.normal)
        } else {
            refract(unit_direction, rec.normal, ri)
        };
        ScatterRecord::SkipPdf {
            attenuation: spec_white(),
            ray: Ray { origin: rec.p, direction, time: r_in.time },
        }
    }

    pub fn scatter_with(&self, r_in: &Ray, rec: &HitRecord, chance: Fixed) -> (r: ScatterRecord<
        'static,
    >)
        ensures
            r == self.spec_scatter_with(*r_in, *rec, chance),
    {
        let attenuation = Color::new(Fixed::one(), Fixed::one(), Fixed::one());
        let ri = if rec.front_face {
            Fixed::one().div(self.refraction_index)
        } else {
            self.refraction_index
        };
        let unit_direction = unit_vector(r_in.direction());
        let cos_theta = dot(unit_direction.neg(), rec.normal).min(Fixed::one());
        let sin_theta = Fixed::one().sub(cos_theta.mul(cos_theta)).sqrt();
        let cannot_refract = ri.mul(sin_theta).raw > ONE_RAW;
        let direction = if cannot_refract || reflectance(cos_theta, ri).raw > chance.raw {
            reflect(unit_direction, rec.normal)
        } else {
            refract(unit_direction, rec.normal, ri)
        };
        ScatterRecord::SkipPdf { attenuation, ray: Ray::new(rec.p, direction, r_in.time()) }
    }
}

impl DiffuseLight {
    pub fn new(tex: Arc<Texture>) -> (r: DiffuseLight)
        ensures
            r.tex == tex,
    {
        DiffuseLight { tex }
    }

    pub fn from_color(emit: Color) -> (r: DiffuseLight)
        ensures
            *r.tex == Texture::Solid(SolidColor { albedo: emit }),
    {
        DiffuseLight { tex: Arc::new(Texture::Solid(SolidColor::new(emit))) }
    }
}

impl Isotropic {
    pub fn from_texture(tex: Arc<Texture>) -> (r: Isotropic)
        ensures
            r.tex == tex,
    {
        Isotropic { tex }
    }

    pub fn from_color(albedo: Color) -> (r: Isotropic)
        ensures
            *r.tex == Texture::Solid(SolidColor { albedo }),
    {
        Isotropic { tex: Arc::new(Texture::Solid(SolidColor::new(albedo))) }
    }
}

impl Material {
    /// What the material does with the ray `r_in` at the hit `rec`, given
    /// the direction `blur` that blurs a mirror and the fraction `chance`
    /// that decides between mirroring and refracting.
    pub open spec fn spec_scatter_with<'a>(
        &self,
        r_in: Ray,
        rec: HitRecord,
        blur: Vec3,
        chance: Fixed,
    ) -> Option<ScatterRecord<'a>> {
        match self {
            Material::Lambertian(m) => Some(
                ScatterRecord::Pdf {
                    attenuation: m.tex.spec_value(rec.u, rec.v, rec.p),
                    pdf: Pdf::Cosine(CosinePdf::spec_new(rec.normal)),
                },
            ),
            Material::Metal(m) => m.spec_scatter_with(r_in, rec, blur),
            Material::Dielectric(m) => Some(m.spec_scatter_with(r_in, rec, chance)),
            Material::DiffuseLight(_) => None,
            Material::Isotropic(m) => Some(
                ScatterRecord::Pdf {
                    attenuation: m.tex.spec_value(rec.u, rec.v, rec.p),
                    pdf: Pdf::Sphere(SpherePdf {  }),
                },
            ),
        }
    }

    pub fn scatter_with(&self, r_in: &Ray, rec: &HitRecord, blur: Vec3, chance: Fixed) -> (r:
        Option<ScatterRecord<'static>>)
        ensures
            r == self.spec_scatter_with(*r_in, *rec, blur, chance),
    {
        match self {
            Material::Lambertian(m) => Some(
                ScatterRecord::Pdf {
                    attenuation: m.tex.value(rec.u, rec.v, rec.p),
                    pdf: Pdf::Cosine(CosinePdf::new(rec.normal)),
                },
            ),
            Material::Metal(m) => m.scatter_with(r_in, rec, blur),
            Material::Dielectric(m) => Some(m.scatter_with(r_in, rec, chance)),
            Material::DiffuseLight(_) => None,
            Material::Isotropic(m) => Some(
                ScatterRecord::Pdf {
                    attenuation: m.tex.value(rec.u, rec.v, rec.p),
                    pdf: Pdf::Sphere(SpherePdf {  }),
                },
            ),
        }
    }

    /// Whether the material scatters without drawing anything.
    pub open spec fn scatters_by_rule(&self) -> bool {
        !(self is Metal) && !(self is Dielectric)
    }

    /// Scatters the ray `r_in` at the hit `rec`. A mirror draws the
    /// direction that blurs it and clear matter draws the fraction that
    /// decides between mirroring and refracting; the other materials draw
    /// nothing.
    pub fn scatter(&self, r_in: &Ray, rec: &HitRecord) -> (r: Option<ScatterRecord<'static>>)
        ensures
            exists|blur: Vec3, chance: Fixed|
                is_unit_draw(blur) && is_nearly_unit(blur) && 0 <= chance@ < ONE_RAW && r
                    == self.spec_scatter_with(*r_in, *rec, blur, chance),
            self.scatters_by_rule() ==> r == self.spec_scatter_with(
                *r_in,
                *rec,
                Vec3::spec_zero(),
                Fixed::spec_zero(),
            ),
    {
        let blur = match self {
            Material::Metal(_) => random_unit_vector(),
            _ => Vec3::zero(),
        };
        let chance = match self {
            Material::Dielectric(_) => random_unit(),
            _ => Fixed::zero(),
        };
        let r = self.scatter_with(r_in, rec, blur, chance);
        proof {
            // where no mirror is blurred, any direction stands for the one not drawn
            let drawn = if self is Metal {
                blur
            } else {
                spec_x_axis()
            };
            assert(0x1_0000_0000int * 0x1_0000_0000int + 0int * 0int + 0int * 0int
                == 0x1_0000_0000_0000_0000) by (nonlinear_arith);
            assert(is_unit_draw(drawn) && is_nearly_unit(drawn) && 0 <= chance@ < ONE_RAW && r
                == self.spec_scatter_with(*r_in, *rec, drawn, chance));
        }
        r
    }

    /// The light that the material sends out at the hit: a light shines
    /// with its texture on its outer side, and nothing else shines.
    pub open spec fn spec_emitted(&self, rec: HitRecord, u: Fixed, v: Fixed, p: Point3) -> Color {
        match self {
            Material::DiffuseLight(m) => if rec.front_face {
                m.tex.spec_value(u, v, p)
            } else {
                spec_black()
            },
            _ => spec_black(),
        }
    }

    pub fn emitted(&self, r_in: &Ray, rec: &HitRecord, u: Fixed, v: Fixed, p: Point3) -> (r: Color)
        ensures
            r == self.spec_emitted(*rec, u, v, p),
    {
        match self {
            Material::DiffuseLight(m) => if rec.front_face {
                m.tex.value(u, v, p)
            } else {
                Color::zero()
            },
            _ => Color::zero(),
        }
    }

    /// The density with which the material scatters into the direction of
    /// `scattered`: `max(0, cos θ) / π` for a matte surface, where `θ` is
    /// the angle from the normal; `1 / 4π` for smoke; zero for the others.
    pub open spec fn spec_scattering_pdf(&self, rec: HitRecord, scattered: Ray) -> Fixed {
        match self {
            Material::Lambertian(_) => {
                let cos_theta = dot(rec.normal, unit_vector(scattered.direction));
                if cos_theta@ < 0 {
                    Fixed::zero()
                } else {
                    cos_theta.div(Fixed { raw: PI_RAW })
                }
            },
            Material::Isotropic(_) => spec_uniform_sphere_density(),
            _ => Fixed::zero(),
        }
    }

    pub fn scattering_pdf(&self, r_in: &Ray, rec: &HitRecord, scattered: &Ray) -> (r: Fixed)
        ensures
            r == self.spec_scattering_pdf(*rec, *scattered),
    {
        match self {
            Material::Lambertian(_) => {
                let cos_theta = dot(rec.normal, unit_vector(scattered.direction()));
                if cos_theta.raw < 0 {
                    Fixed::zero()
                } else {
                    cos_theta.div(Fixed { raw: PI_RAW })
                }
            },
            Material::Isotropic(_) => uniform_sphere_density(),
            _ => Fixed::zero(),
        }
    }
}

} // verus!
