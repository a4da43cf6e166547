//! Smoke and fog: a volume of constant density that scatters a ray at a
//! random depth.

use crate::color::Color;
use crate::drawn::{
    are_fractions, lemma_medium_is_missed, lemma_medium_is_not_left, lemma_medium_scatters,
};
use crate::fixed::Fixed;
use crate::hit_record::HitRecord;
use crate::hittable::Hittable;
use crate::interval::Interval;
use crate::material::{Isotropic, Material};
use crate::ray::Ray;
use crate::sampling::random_unit;
use crate::texture::{SolidColor, Texture};
use crate::trig::ln;
use crate::vec3::{spec_x_axis, Vec3};
use std::sync::Arc;
use vstd::prelude::*;

verus! {

/// Raw value of 0.0001: how far past the point where the ray enters the
/// boundary the search for the point where it leaves begins.
pub const BOUNDARY_STEP_RAW: i64 = 429_497;

/// The volume inside `boundary`, filled with matter of constant density.
/// `neg_inv_density` is `-1 / density`.
pub struct ConstantMedium {
    pub boundary: Box<Hittable>,
    pub neg_inv_density: Fixed,
    pub phase_function: Arc<Material>,
}

impl ConstantMedium {
    pub fn from_texture(boundary: Box<Hittable>, density: Fixed, tex: Arc<Texture>) -> (r:
        ConstantMedium)
        ensures
            r.boundary == boundary,
            r.neg_inv_density == Fixed::spec_from_int(-1i32).spec_div(density),
            *r.phase_function == Material::Isotropic(Isotropic { tex }),
    {
        let neg_inv_density = Fixed::from_int(-1).div(density);
        ConstantMedium {
            boundary,
            neg_inv_density,
            phase_function: Arc::new(Material::Isotropic(Isotropic::from_texture(tex))),
        }
    }

    pub fn from_color(boundary: Box<Hittable>, density: Fixed, albedo: Color) -> (r: ConstantMedium)
        ensures
            r.boundary == boundary,
            r.neg_inv_density == Fixed::spec_from_int(-1i32).spec_div(density),
            r.phase_function.is_isotropic_of(albedo),
    {
        let neg_inv_density = Fixed::from_int(-1).div(density);
        ConstantMedium {
            boundary,
            neg_inv_density,
            phase_function: Arc::new(Material::Isotropic(Isotropic::from_color(albedo))),
        }
    }

    /// Where a ray scatters that enters the boundary at parameter `t_enter`
    /// and leaves it at `t_exit`, given the fraction `u` that picks the
    /// depth. The stretch inside the boundary is cut to the window `ray_t`
    /// and to parameters that are not negative. The ray travels the
    /// distance `-ln(u) / density` through the medium; where the stretch is
    /// shorter it passes through, else it scatters there. The normal and the
    /// side of the hit mean nothing.
    #[verifier::opaque]
    pub open spec fn spec_scatter_between<'a>(
        &'a self,
        r: Ray,
        ray_t: Interval,
        t_enter: Fixed,
        t_exit: Fixed,
        u: Fixed,
    ) -> Option<HitRecord<'a>> {
        let t1 = t_enter.max(ray_t.min);
        let t2 = t_exit.min(ray_t.max);
        if t1@ >= t2@ {
            None
        } else {
            let t1 = t1.max(Fixed::zero());
            let ray_length = r.direction.length();
            let distance_inside_boundary = t2.sub(t1).mul(ray_length);
            let hit_distance = self.neg_inv_density.mul(ln(u));
            if hit_distance@ > distance_inside_boundary@ {
                None
            } else {
                let t = t1.add(hit_distance.div(ray_length));
                Some(
                    HitRecord {
                        p: r.at(t),
                        normal: spec_x_axis(),
                        mat: &*self.phase_function,
                        t,
                        u: Fixed::zero(),
                        v: Fixed::zero(),
                        front_face: true,
                    },
                )
            }
        }
    }

    pub fn scatter_between<'a>(
        &'a self,
        r: &Ray,
        ray_t: Interval,
        t_enter: Fixed,
        t_exit: Fixed,
        u: Fixed,
    ) -> (hit: Option<HitRecord<'a>>)
        ensures
            hit == self.spec_scatter_between(*r, ray_t, t_enter, t_exit, u),
            hit matches Some(rec) ==> is_scattering_of(rec, *self, *r),
    {
        reveal(ConstantMedium::spec_scatter_between);
        let mut t1 = t_enter.max(ray_t.min);
        let t2 = t_exit.min(ray_t.max);
        if t1.raw >= t2.raw {
            return None;
        }
        if t1.raw < 0 {
            t1 = Fixed::zero();
        }
        let ray_length = r.direction().length();
        let distance_inside_boundary = t2.sub(t1).mul(ray_length);
        let hit_distance = self.neg_inv_density.mul(ln(u));
        if hit_distance.raw > distance_inside_boundary.raw {
            return None;
        }
        let t = t1.add(hit_distance.div(ray_length));
        Some(
            HitRecord::new(
                r.at(t),
                Vec3::new(Fixed::one(), Fixed::zero(), Fixed::zero()),
                &*self.phase_function,
                t,
                Fixed::zero(),
                Fixed::zero(),
                true,
            ),
        )
    }

    /// The window in which the point where the ray leaves the boundary is
    /// sought, for a ray that enters it at `t_enter`.
    pub open spec fn spec_exit_window(t_enter: Fixed) -> Interval {
        Interval { min: t_enter.add(Fixed { raw: BOUNDARY_STEP_RAW }), max: Fixed::infinity() }
    }

    /// Where the ray `r` scatters in the medium inside the window `ray_t`:
    /// nowhere unless it enters the boundary and leaves it again, and else
    /// where `scatter_between` puts it for a fraction drawn for the depth.
    pub fn hit<'a>(&'a self, r: &Ray, ray_t: Interval) -> (hit: Option<HitRecord<'a>>)
        ensures
            Hittable::ConstantMedium(*self).could_report(*r, ray_t, hit),
            hit matches Some(rec) ==> is_scattering_of(rec, *self, *r),
        decreases self,
    {
        let ghost none = Seq::<Fixed>::empty();
        let entry = self.boundary.hit(r, Interval::universe());
        let ghost d1 = choose|d: Seq<Fixed>|
            are_fractions(d) && #[trigger] self.boundary.spec_hit_drawn(
                *r,
                Interval::spec_universe(),
                d,
            ) == Some((entry, none));
        let rec1 = match entry {
            None => {
                proof {
                    lemma_medium_is_missed(*self, *r, ray_t, d1);
                }
                return None;
            },
            Some(rec) => rec,
        };
        let exit = self.boundary.hit(
            r,
            Interval::new(rec1.t.add(Fixed { raw: BOUNDARY_STEP_RAW }), Fixed::infinity()),
        );
        let ghost window = ConstantMedium::spec_exit_window(rec1.t);
        let ghost d2 = choose|d: Seq<Fixed>|
            are_fractions(d) && #[trigger] self.boundary.spec_hit_drawn(*r, window, d) == Some(
                (exit, none),
            );
        let rec2 = match exit {
            None => {
                proof {
                    lemma_medium_is_not_left(*self, *r, ray_t, rec1, d1, d2);
                }
                return None;
            },
            Some(rec) => rec,
        };
        let u = random_unit();
        let hit = self.scatter_between(r, ray_t, rec1.t, rec2.t, u);
        proof {
            lemma_medium_scatters(*self, *r, ray_t, rec1, rec2, d1, d2, u);
        }
        hit
    }
}

/// Whether `rec` is a record of the ray `r` scattering in the medium `m`:
/// the point is the point of the ray at the parameter of the record, the
/// material is that of the medium, the hit counts as one from outside, and
/// the normal, which means nothing, is the x axis.
pub open spec fn is_scattering_of(rec: HitRecord, m: ConstantMedium, r: Ray) -> bool {
    &&& rec.p == r.spec_at(rec.t)
    &&& *rec.mat == *m.phase_function
    &&& rec.front_face
    &&& rec.normal == spec_x_axis()
    &&& rec.u == Fixed::spec_zero()
    &&& rec.v == Fixed::spec_zero()
}

impl Material {
    /// Whether the material is smoke of the one colour `albedo`.
    pub open spec fn is_isotropic_of(&self, albedo: Color) -> bool {
        self matches Material::Isotropic(m) && *m.tex == Texture::Solid(SolidColor { albedo })
    }
}

} // verus!
