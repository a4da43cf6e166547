//! Everything a ray can hit.

use crate::aabb::AABB;
use crate::bvh::BVHNode;
use crate::constant_medium::ConstantMedium;
use crate::drawn::{are_fractions, spec_closest_drawn};
use crate::fixed::Fixed;
use crate::hit_record::HitRecord;
use crate::hittable_list::{
    spec_all_deterministic, spec_all_oppose_rays, spec_any_could_pick, spec_closest,
    spec_density_sum, HittableList,
};
use crate::interval::Interval;
use crate::quad::Quad;
use crate::ray::Ray;
use crate::sphere::Sphere;
use crate::transform::{RotateY, Translate};
use crate::triangle::Triangle;
use crate::vec3::{dot, spec_x_axis, Point3, Vec3};
use vstd::prelude::*;

verus! {

pub enum Hittable {
    Sphere(Sphere),
    Quad(Quad),
    Triangle(Triangle),
    ConstantMedium(ConstantMedium),
    Translate(Translate),
    RotateY(RotateY),
    List(HittableList),
    Bvh(BVHNode),
}

impl Hittable {
    /// A box that holds the object.
    pub open spec fn spec_bounding_box(&self) -> AABB
        decreases self,
    {
        match self {
            Hittable::Sphere(s) => s.bbox,
            Hittable::Quad(q) => q.bbox,
            Hittable::Triangle(t) => t.bbox,
            Hittable::ConstantMedium(m) => m.boundary.spec_bounding_box(),
            Hittable::Translate(t) => t.bbox,
            Hittable::RotateY(t) => t.bbox,
            Hittable::List(l) => l.bbox,
            Hittable::Bvh(n) => n.spec_bounding_box(),
        }
    }

    /// Whether a hit of the object depends on the ray and the window alone.
    /// A medium draws the depth at which it scatters; everything else is a
    /// surface.
    pub open spec fn deterministic(&self) -> bool
        decreases self,
    {
        match self {
            Hittable::Sphere(_) => true,
            Hittable::Quad(_) => true,
            Hittable::Triangle(_) => true,
            Hittable::ConstantMedium(_) => false,
            Hittable::Translate(t) => t.object.deterministic(),
            Hittable::RotateY(t) => t.object.deterministic(),
            Hittable::List(l) => spec_all_deterministic(l.objects@, l.objects@.len() as int),
            Hittable::Bvh(n) => n.deterministic(),
        }
    }

    /// Whether every hit of the object has its normal turned against the
    /// ray: the object is made of spheres, of parallelograms and triangles
    /// with a normal in the range that arithmetic produces, of moved
    /// objects, lists and hierarchies of such. Turning an object rounds
    /// ray and normal apart, and a medium has no normal.
    pub open spec fn opposes_rays(&self) -> bool
        decreases self,
    {
        match self {
            Hittable::Sphere(_) => true,
            Hittable::Quad(q) => q.normal.wf(),
            Hittable::Triangle(t) => t.normal.wf(),
            Hittable::ConstantMedium(_) => false,
            Hittable::Translate(t) => t.object.opposes_rays(),
            Hittable::RotateY(_) => false,
            Hittable::List(l) => spec_all_oppose_rays(l.objects@, l.objects@.len() as int),
            Hittable::Bvh(n) => n.opposes_rays(),
        }
    }

    /// The hit of `r` on the object inside the window `ray_t`, ends
    /// excluded, for an object whose hits depend on the ray and the window
    /// alone.
    pub open spec fn spec_hit<'a>(&'a self, r: Ray, ray_t: Interval) -> Option<HitRecord<'a>>
        decreases self,
    {
        match self {
            Hittable::Sphere(s) => s.spec_hit(r, ray_t),
            Hittable::Quad(q) => q.spec_hit(r, ray_t),
            Hittable::Triangle(t) => t.spec_hit(r, ray_t),
            Hittable::ConstantMedium(_) => None,
            Hittable::Translate(t) => match t.object.spec_hit(t.spec_offset_ray(r), ray_t) {
                Some(rec) => Some(t.spec_carry_back(rec)),
                None => None,
            },
            Hittable::RotateY(t) => match t.object.spec_hit(t.spec_turned_ray(r), ray_t) {
                Some(rec) => Some(t.spec_carry_back(rec)),
                None => None,
            },
            Hittable::List(l) => spec_closest(l.objects@, r, ray_t, l.objects@.len() as int),
            Hittable::Bvh(n) => n.spec_hit(r, ray_t),
        }
    }

    /// The density, at `direction`, of the distribution of directions that
    /// `random` draws for `origin`. Of the single objects only the
    /// parallelogram serves as a light; the others have density zero.
    pub open spec fn spec_pdf_value(&self, origin: Point3, direction: Vec3) -> Fixed
        decreases self,
    {
        match self {
            Hittable::Quad(q) => q.spec_pdf_value(origin, direction),
            Hittable::List(l) => spec_density_sum(
                l.objects@,
                Fixed::one().div(Fixed::spec_from_count(l.objects@.len())),
                origin,
                direction,
                l.objects@.len() as int,
            ),
            _ => Fixed::zero(),
        }
    }

    /// Whether `direction` is one that `random` can return for `origin`.
    /// Objects that do not serve as lights return the x axis.
    pub open spec fn could_pick(&self, origin: Point3, direction: Vec3) -> bool
        decreases self,
    {
        match self {
            Hittable::Quad(q) => q.could_pick(origin, direction),
            Hittable::List(l) => if l.objects@.len() == 0 {
                direction == spec_x_axis()
            } else {
                spec_any_could_pick(l.objects@, origin, direction, l.objects@.len() as int)
            },
            _ => direction == spec_x_axis(),
        }
    }

    pub fn bounding_box(&self) -> (r: AABB)
        ensures
            r == self.spec_bounding_box(),
        decreases self,
    {
        match self {
            Hittable::Sphere(s) => s.bbox,
            Hittable::Quad(q) => q.bbox,
            Hittable::Triangle(t) => t.bbox,
            Hittable::ConstantMedium(m) => m.boundary.bounding_box(),
            Hittable::Translate(t) => t.bbox,
            Hittable::RotateY(t) => t.bbox,
            Hittable::List(l) => l.bbox,
            Hittable::Bvh(n) => n.bounding_box(),
        }
    }

    /// The hit of `r` on the object inside the window `ray_t`. Each medium
    /// that the ray enters and leaves draws the depth at which it scatters;
    /// the hit is the one that `spec_hit_drawn` describes for what they
    /// draw. The hit of a surface is the one that `spec_hit` describes.
    pub fn hit<'a>(&'a self, r: &Ray, ray_t: Interval) -> (hit: Option<HitRecord<'a>>)
        ensures
            self.could_report(*r, ray_t, hit),
            self.deterministic() ==> hit == self.spec_hit(*r, ray_t),
            self.deterministic() ==> (hit matches Some(rec) ==> ray_t.min@ < rec.t@ < ray_t.max@),
            self.opposes_rays() ==> (hit matches Some(rec) ==> dot(r.direction, rec.normal)@ <= 0),
        decreases self,
    {
        let ghost none = Seq::<Fixed>::empty();
        match self {
            Hittable::Sphere(s) => {
                let hit = s.hit(r, ray_t);
                assert(self.spec_hit_drawn(*r, ray_t, none) == Some((hit, none)));
                hit
            },
            Hittable::Quad(q) => {
                let hit = q.hit(r, ray_t);
                assert(self.spec_hit_drawn(*r, ray_t, none) == Some((hit, none)));
                hit
            },
            Hittable::Triangle(t) => {
                let hit = t.hit(r, ray_t);
                assert(self.spec_hit_drawn(*r, ray_t, none) == Some((hit, none)));
                hit
            },
            Hittable::ConstantMedium(m) => m.hit(r, ray_t),
            Hittable::Translate(t) => t.hit(r, ray_t),
            Hittable::RotateY(t) => t.hit(r, ray_t),
            Hittable::List(l) => {
                let hit = l.hit(r, ray_t);
                let ghost d = choose|d: Seq<Fixed>|
                    are_fractions(d) && #[trigger] spec_closest_drawn(
                        l.objects@,
                        *r,
                        ray_t,
                        l.objects@.len() as int,
                        d,
                    ) == Some((hit, none));
                assert(self.spec_hit_drawn(*r, ray_t, d) == Some((hit, none)));
                hit
            },
            Hittable::Bvh(n) => {
                let hit = n.hit(r, ray_t);
                let ghost d = choose|d: Seq<Fixed>|
                    are_fractions(d) && #[trigger] n.spec_hit_drawn(*r, ray_t, d) == Some(
                        (hit, none),
                    );
                assert(self.spec_hit_drawn(*r, ray_t, d) == Some((hit, none)));
                hit
            },
        }
    }

    pub fn pdf_value(&self, origin: Point3, direction: Vec3) -> (r: Fixed)
        ensures
            r == self.spec_pdf_value(origin, direction),
        decreases self,
    {
        match self {
            Hittable::Quad(q) => q.pdf_value(origin, direction),
            Hittable::List(l) => l.pdf_value(origin, direction),
            _ => Fixed::zero(),
        }
    }

    /// Draws a direction from `origin` toward the object.
    pub fn random(&self, origin: Point3) -> (r: Vec3)
        ensures
            self.could_pick(origin, r),
        decreases self,
    {
        match self {
            Hittable::Quad(q) => q.random(origin),
            Hittable::List(l) => l.random(origin),
            _ => Vec3::new(Fixed::one(), Fixed::zero(), Fixed::zero()),
        }
    }
}

} // verus!
