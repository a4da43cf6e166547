//! Probability densities over directions: each can be evaluated for a
//! direction and can draw one.

use crate::fixed::{Fixed, ONE_RAW, PI_RAW};
use crate::hittable::Hittable;
use crate::onb::Onb;
use crate::sampling::random_unit;
use crate::vec3::{
    dot, is_nearly_unit, is_unit_draw, random_unit_vector, spec_cosine_direction, unit_vector,
    Point3, Vec3,
};
use vstd::prelude::*;

verus! {

/// Raw value of one half.
pub const HALF_RAW: i64 = 0x8000_0000;

/// The density of the uniform distribution over all directions: `1 / 4π`.
pub open spec fn spec_uniform_sphere_density() -> Fixed {
    Fixed::one().div(Fixed::from_int(4).mul(Fixed { raw: PI_RAW }))
}

#[verifier::when_used_as_spec(spec_uniform_sphere_density)]
pub fn uniform_sphere_density() -> (r: Fixed)
    ensures
        r == spec_uniform_sphere_density(),
{
    Fixed::one().div(Fixed::from_int(4).mul(Fixed { raw: PI_RAW }))
}

/// The uniform distribution over all directions.
pub struct SpherePdf {}

/// The distribution over the hemisphere around `uvw.w` with density
/// proportional to the cosine of the angle from `uvw.w`.
pub struct CosinePdf {
    pub uvw: Onb,
}

/// The distribution of the directions from `origin` toward `objects`.
pub struct HittablePdf<'a> {
    pub objects: &'a Hittable,
    pub origin: Point3,
}

/// The even mixture of two distributions.
pub struct MixturePdf<'a> {
    pub p0: Box<Pdf<'a>>,
    pub p1: Box<Pdf<'a>>,
}

pub enum Pdf<'a> {
    Sphere(SpherePdf),
    Cosine(CosinePdf),
    Hittable(HittablePdf<'a>),
    Mixture(MixturePdf<'a>),
}

impl SpherePdf {
    pub fn value(&self, direction: Vec3) -> (r: Fixed)
        ensures
            r == spec_uniform_sphere_density(),
    {
        uniform_sphere_density()
    }

    pub fn generate(&self) -> (r: Vec3)
        ensures
            is_unit_draw(r),
            is_nearly_unit(r),
    {
        random_unit_vector()
    }
}

impl CosinePdf {
    pub open spec fn spec_new(w: Vec3) -> CosinePdf {
        CosinePdf { uvw: Onb::spec_new(w) }
    }

    /// `max(0, cos θ) / π`, where `θ` is the angle between `direction` and
    /// the axis of the hemisphere.
    pub open spec fn spec_value(&self, direction: Vec3) -> Fixed {
        let cosine_theta = dot(unit_vector(direction), self.uvw.w);
        cosine_theta.div(Fixed { raw: PI_RAW }).max(Fixed::zero())
    }

    /// Whether `direction` is one that `generate` can return: the image in
    /// the basis of a cosine-weighted direction around the z axis.
    pub open spec fn could_generate(&self, direction: Vec3) -> bool {
        exists|r1: Fixed, r2: Fixed|
            0 <= r1@ < ONE_RAW && 0 <= r2@ < ONE_RAW && direction == self.uvw.spec_transform(
                spec_cosine_direction(r1, r2),
            )
    }

    #[verifier::when_used_as_spec(spec_new)]
    pub fn new(w: Vec3) -> (r: CosinePdf)
        ensures
            r == CosinePdf::spec_new(w),
    {
        CosinePdf { uvw: Onb::new(w) }
    }

    #[verifier::when_used_as_spec(spec_value)]
    pub fn value(&self, direction: Vec3) -> (r: Fixed)
        ensures
            r == self.spec_value(direction),
            r@ >= 0,
    {
        let cosine_theta = dot(unit_vector(direction), self.uvw.w());
        cosine_theta.div(Fixed { raw: PI_RAW }).max(Fixed::zero())
    }

    pub fn generate(&self) -> (r: Vec3)
        ensures
            self.could_generate(r),
    {
        let r1 = random_unit();
        let r2 = random_unit();
        let r = self.uvw.transform(crate::vec3::cosine_direction(r1, r2));
        assert(0 <= r1@ < ONE_RAW && 0 <= r2@ < ONE_RAW && r == self.uvw.spec_transform(
            spec_cosine_direction(r1, r2),
        ));
        r
    }
}

impl<'a> HittablePdf<'a> {
    pub fn new(objects: &'a Hittable, origin: Point3) -> (r: HittablePdf<'a>)
        ensures
            r.objects == objects,
            r.origin == origin,
    {
        HittablePdf { objects, origin }
    }

    pub fn value(&self, direction: Vec3) -> (r: Fixed)
        ensures
            r == self.objects.spec_pdf_value(self.origin, direction),
    {
        self.objects.pdf_value(self.origin, direction)
    }

    pub fn generate(&self) -> (r: Vec3)
        ensures
            self.objects.could_pick(self.origin, r),
    {
        self.objects.random(self.origin)
    }
}

impl<'a> MixturePdf<'a> {
    pub fn new(p0: Pdf<'a>, p1: Pdf<'a>) -> (r: MixturePdf<'a>)
        ensures
            *r.p0 == p0,
            *r.p1 == p1,
    {
        MixturePdf { p0: Box::new(p0), p1: Box::new(p1) }
    }
}

impl<'a> Pdf<'a> {
    /// The density of the distribution at `direction`. A mixture has half
    /// the density of each of its parts.
    pub open spec fn spec_value(&self, direction: Vec3) -> Fixed
        decreases self,
    {
        match self {
            Pdf::Sphere(_) => spec_uniform_sphere_density(),
            Pdf::Cosine(p) => p.spec_value(direction),
            Pdf::Hittable(p) => p.objects.spec_pdf_value(p.origin, direction),
            Pdf::Mixture(p) => Fixed { raw: HALF_RAW }.mul(p.p0.spec_value(direction)).add(
                Fixed { raw: HALF_RAW }.mul(p.p1.spec_value(direction)),
            ),
        }
    }

    /// Whether `direction` is one that `generate` can return. A mixture can
    /// return what either of its parts can.
    pub open spec fn could_generate(&self, direction: Vec3) -> bool
        decreases self,
    {
        match self {
            Pdf::Sphere(_) => is_unit_draw(direction),
            Pdf::Cosine(p) => p.could_generate(direction),
            Pdf::Hittable(p) => p.objects.could_pick(p.origin, direction),
            Pdf::Mixture(p) => p.p0.could_generate(direction) || p.p1.could_generate(direction),
        }
    }

    pub fn value(&self, direction: Vec3) -> (r: Fixed)
        ensures
            r == self.spec_value(direction),
        decreases self,
    {
        match self {
            Pdf::Sphere(p) => p.value(direction),
            Pdf::Cosine(p) => p.value(direction),
            Pdf::Hittable(p) => p.value(direction),
            Pdf::Mixture(p) => Fixed { raw: HALF_RAW }.mul(p.p0.value(direction)).add(
                Fixed { raw: HALF_RAW }.mul(p.p1.value(direction)),
            ),
        }
    }

    /// Draws a direction. A mixture draws from either part with equal
    /// chance.
    pub fn generate(&self) -> (r: Vec3)
        ensures
            self.could_generate(r),
        decreases self,
    {
        match self {
            Pdf::Sphere(p) => p.generate(),
            Pdf::Cosine(p) => p.generate(),
            Pdf::Hittable(p) => p.generate(),
            Pdf::Mixture(p) => if random_unit().raw < HALF_RAW {
                p.p0.generate()
            } else {
                p.p1.generate()
            },
        }
    }
}

/// The uniform density is positive: every direction that `SpherePdf` can
/// draw has positive density.
pub proof fn lemma_uniform_sphere_density_positive()
    ensures
        spec_uniform_sphere_density()@ > 0,
{
    let four = Fixed::spec_from_int(4);
    assert(four@ == 0x4_0000_0000);
    let four_pi = four.spec_mul(Fixed { raw: PI_RAW });
    assert(four@ * PI_RAW == 0x4_0000_0000 * 13_493_037_705) by (nonlinear_arith)
        requires
            four@ == 0x4_0000_0000,
            PI_RAW == 13_493_037_705,
    ;
    assert(four_pi@ == 53_972_150_820);
    assert((ONE_RAW as int) * (ONE_RAW as int) == 0x1_0000_0000_0000_0000) by (nonlinear_arith)
        requires
            ONE_RAW == 0x1_0000_0000,
    ;
    assert(0x1_0000_0000_0000_0000int / 53_972_150_820 == 341_782_637);
}

} // verus!
