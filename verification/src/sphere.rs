//! Spheres, at rest or moving in a straight line while the shutter is open.

use crate::aabb::AABB;
use crate::fixed::{Fixed, ONE_RAW, PI_RAW};
use crate::hit_record::{face_normal, front_face, lemma_face_normal_opposes, HitRecord};
use crate::interval::Interval;
use crate::material::Material;
use crate::ray::Ray;
use crate::trig::{acos, atan2, TWO_PI_RAW};
use crate::vec3::{dot, Point3, Vec3};
use std::sync::Arc;
use vstd::prelude::*;

verus! {

/// The sphere of radius `radius` whose centre at shutter time `t` is
/// `center.at(t)`.
pub struct Sphere {
    pub center: Ray,
    pub radius: Fixed,
    pub mat: Arc<Material>,
    pub bbox: AABB,
}

/// The interval `[0, 1]`.
pub open spec fn spec_unit_interval() -> Interval {
    Interval { min: Fixed::zero(), max: Fixed::one() }
}

/// The surface coordinates of the point `p` of the unit sphere around the
/// origin: `u = φ / 2π` and `v = θ / π`, both limited to `[0, 1]`, where
/// `θ = acos(-p.y)` is the angle up from the south pole and
/// `φ = atan2(-p.z, p.x) + π` the angle around the y axis.
pub open spec fn spec_sphere_uv(p: Point3) -> (Fixed, Fixed) {
    let theta = acos(p.y.neg());
    let phi = atan2(p.z.neg(), p.x).add(Fixed { raw: PI_RAW });
    (
        spec_unit_interval().spec_clamp(phi.div(Fixed { raw: TWO_PI_RAW })),
        spec_unit_interval().spec_clamp(theta.div(Fixed { raw: PI_RAW })),
    )
}

pub fn get_sphere_uv(p: Point3) -> (r: (Fixed, Fixed))
    ensures
        r == spec_sphere_uv(p),
        0 <= r.0@ <= ONE_RAW,
        0 <= r.1@ <= ONE_RAW,
{
    let theta = acos(p.y.neg());
    let phi = atan2(p.z.neg(), p.x).add(Fixed { raw: PI_RAW });
    let unit = Interval::new(Fixed::zero(), Fixed::one());
    (unit.clamp(phi.div(Fixed { raw: TWO_PI_RAW })), unit.clamp(theta.div(Fixed { raw: PI_RAW })))
}

impl Sphere {
    /// The box around a sphere of radius `radius` at `center`, padded.
    pub open spec fn spec_box_around(center: Point3, radius: Fixed) -> AABB {
        let rvec = Vec3 { x: radius, y: radius, z: radius };
        AABB::spec_from_points(center.sub(rvec), center.add(rvec)).spec_padded()
    }

    /// A sphere at rest. A negative radius counts as zero.
    pub open spec fn spec_new(center: Point3, radius: Fixed, mat: Arc<Material>) -> Sphere {
        let radius = radius.max(Fixed::zero());
        Sphere {
            center: Ray { origin: center, direction: Vec3::zero(), time: Fixed::zero() },
            radius,
            mat,
            bbox: Sphere::spec_box_around(center, radius),
        }
    }

    /// A sphere that moves from `center1` at shutter time 0 to `center2` at
    /// shutter time 1. Its box holds it at both ends.
    pub open spec fn spec_new_moving(
        center1: Point3,
        center2: Point3,
        radius: Fixed,
        mat: Arc<Material>,
    ) -> Sphere {
        let radius = radius.max(Fixed::zero());
        let center = Ray { origin: center1, direction: center2.sub(center1), time: Fixed::zero() };
        Sphere {
            center,
            radius,
            mat,
            bbox: AABB::spec_from_aabb(
                Sphere::spec_box_around(center.spec_at(Fixed::zero()), radius),
                Sphere::spec_box_around(center.spec_at(Fixed::one()), radius),
            ),
        }
    }

    pub fn new(center: Point3, radius: Fixed, mat: Arc<Material>) -> (r: Sphere)
        ensures
            r == Sphere::spec_new(center, radius, mat),
    {
        let radius = radius.max(Fixed::zero());
        let rvec = Vec3::new(radius, radius, radius);
        Sphere {
            center: Ray::new(center, Vec3::zero(), Fixed::zero()),
            radius,
            mat,
            bbox: AABB::from_points(center.sub(rvec), center.add(rvec)).padded(),
        }
    }

    pub fn new_moving(center1: Point3, center2: Point3, radius: Fixed, mat: Arc<Material>) -> (r:
        Sphere)
        ensures
            r == Sphere::spec_new_moving(center1, center2, radius, mat),
    {
        let radius = radius.max(Fixed::zero());
        let center = Ray::new(center1, center2.sub(center1), Fixed::zero());
        let rvec = Vec3::new(radius, radius, radius);
        let at_start = center.at(Fixed::zero());
        let at_end = center.at(Fixed::one());
        let box1 = AABB::from_points(at_start.sub(rvec), at_start.add(rvec)).padded();
        let box2 = AABB::from_points(at_end.sub(rvec), at_end.add(rvec)).padded();
        Sphere { center, radius, mat, bbox: AABB::from_aabb(box1, box2) }
    }

    /// The parameter at which `r` meets the sphere inside the window
    /// `ray_t`, ends excluded: of the two roots of
    /// `|origin + t·direction - centre|² = radius²`, the nearer one if the
    /// window holds it, else the farther one if the window holds that.
    pub open spec fn spec_root(&self, r: Ray, ray_t: Interval) -> Option<Fixed> {
        let current_center = self.center.at(r.time);
        let oc = current_center.sub(r.origin);
        let a = r.direction.length_squared();
        let h = dot(r.direction, oc);
        let c = oc.length_squared().sub(self.radius.mul(self.radius));
        let discriminant = h.mul(h).sub(a.mul(c));
        if discriminant@ < 0 {
            None
        } else {
            let sqrtd = discriminant.sqrt();
            let near = h.sub(sqrtd).div(a);
            let far = h.add(sqrtd).div(a);
            if ray_t.surrounds(near) {
                Some(near)
            } else if ray_t.surrounds(far) {
                Some(far)
            } else {
                None
            }
        }
    }

    /// The outward normal at the point `p` of the sphere, at shutter time
    /// `time`.
    pub open spec fn spec_outward_normal(&self, p: Point3, time: Fixed) -> Vec3 {
        p.sub(self.center.at(time)).div(self.radius)
    }

    /// The record of the hit of `r` at parameter `root`.
    pub open spec fn spec_record_at<'a>(&'a self, r: Ray, root: Fixed) -> HitRecord<'a> {
        let p = r.at(root);
        let outward_normal = self.spec_outward_normal(p, r.time);
        let uv = spec_sphere_uv(outward_normal);
        HitRecord {
            p,
            normal: face_normal(r.direction, outward_normal),
            mat: &*self.mat,
            t: root,
            u: uv.0,
            v: uv.1,
            front_face: front_face(r.direction, outward_normal),
        }
    }

    /// The nearest hit of `r` inside the window `ray_t`, ends excluded.
    #[verifier::opaque]
    pub open spec fn spec_hit<'a>(&'a self, r: Ray, ray_t: Interval) -> Option<HitRecord<'a>> {
        match self.spec_root(r, ray_t) {
            Some(root) => Some(self.spec_record_at(r, root)),
            None => None,
        }
    }

    pub fn hit<'a>(&'a self, r: &Ray, ray_t: Interval) -> (hit: Option<HitRecord<'a>>)
        ensures
            hit == self.spec_hit(*r, ray_t),
            hit matches Some(rec) ==> {
                &&& ray_t.min@ < rec.t@ < ray_t.max@
                &&& dot(r.direction, rec.normal)@ <= 0
                &&& 0 <= rec.u@ <= ONE_RAW
                &&& 0 <= rec.v@ <= ONE_RAW
            },
    {
        reveal(Sphere::spec_hit);
        let current_center = self.center.at(r.time());
        let oc = current_center.sub(r.origin());
        let a = r.direction().length_squared();
        let h = dot(r.direction(), oc);
        let c = oc.length_squared().sub(self.radius.mul(self.radius));
        let discriminant = h.mul(h).sub(a.mul(c));
        if discriminant.raw < 0 {
            return None;
        }
        let sqrtd = discriminant.sqrt();
        let mut root = h.sub(sqrtd).div(a);
        if !ray_t.surrounds(root) {
            root = h.add(sqrtd).div(a);
            if !ray_t.surrounds(root) {
                return None;
            }
        }
        let p = r.at(root);
        let outward_normal = p.sub(current_center).div(self.radius);
        let front_face = front_face(r.direction(), outward_normal);
        let normal = face_normal(r.direction(), outward_normal);
        let (u, v) = get_sphere_uv(outward_normal);
        proof {
            lemma_face_normal_opposes(r.direction, outward_normal);
        }
        Some(HitRecord::new(p, normal, &*self.mat, root, u, v, front_face))
    }
}

} // verus!
