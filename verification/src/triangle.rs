//! Triangles.

use crate::aabb::AABB;
use crate::fixed::{Fixed, ONE_RAW};
use crate::hit_record::{face_normal, front_face, lemma_face_normal_opposes, HitRecord};
use crate::interval::Interval;
use crate::material::Material;
use crate::quad::{plane_coordinates, plane_parameter, spec_plane_coordinates, spec_plane_parameter};
use crate::ray::Ray;
use crate::vec3::{cross, dot, unit_vector, Point3, Vec3};
use std::sync::Arc;
use vstd::prelude::*;

verus! {

/// The triangle with corners `v0`, `v1`, `v2`. The other fields are derived
/// from the corners: the edges `u = v1 - v0` and `v = v2 - v0`, the unit
/// normal, the constant `d` of the plane `normal · p = d`, the vector `w`
/// that turns a point of the plane into its coordinates along the edges,
/// and the box.
pub struct Triangle {
    pub v0: Point3,
    pub v1: Point3,
    pub v2: Point3,
    pub u: Vec3,
    pub v: Vec3,
    pub w: Vec3,
    pub mat: Arc<Material>,
    pub bbox: AABB,
    pub normal: Vec3,
    pub d: Fixed,
}

/// The box of the three corners, padded.
pub open spec fn spec_triangle_bounding_box(v0: Point3, v1: Point3, v2: Point3) -> AABB {
    AABB::spec_from_points(
        Vec3 {
            x: v0.x.min(v1.x).min(v2.x),
            y: v0.y.min(v1.y).min(v2.y),
            z: v0.z.min(v1.z).min(v2.z),
        },
        Vec3 {
            x: v0.x.max(v1.x).max(v2.x),
            y: v0.y.max(v1.y).max(v2.y),
            z: v0.z.max(v1.z).max(v2.z),
        },
    ).spec_padded()
}

fn set_bounding_box(v0: Point3, v1: Point3, v2: Point3) -> (r: AABB)
    ensures
        r == spec_triangle_bounding_box(v0, v1, v2),
{
    let min = Point3::new(
        v0.x().min(v1.x()).min(v2.x()),
        v0.y().min(v1.y()).min(v2.y()),
        v0.z().min(v1.z()).min(v2.z()),
    );
    let max = Point3::new(
        v0.x().max(v1.x()).max(v2.x()),
        v0.y().max(v1.y()).max(v2.y()),
        v0.z().max(v1.z()).max(v2.z()),
    );
    AABB::from_points(min, max).padded()
}

/// Whether the plane coordinates `(a, b)` lie in the triangle: neither is
/// negative and their sum is at most one.
pub open spec fn spec_is_interior(a: Fixed, b: Fixed) -> bool {
    a@ >= 0 && b@ >= 0 && a.add(b)@ <= ONE_RAW
}

#[verifier::when_used_as_spec(spec_is_interior)]
pub fn is_interior(a: Fixed, b: Fixed) -> (r: bool)
    ensures
        r == spec_is_interior(a, b),
{
    a.raw >= 0 && b.raw >= 0 && a.add(b).raw <= ONE_RAW
}

impl Triangle {
    pub open spec fn spec_new(v0: Point3, v1: Point3, v2: Point3, mat: Arc<Material>) -> Triangle {
        let u = v1.sub(v0);
        let v = v2.sub(v0);
        let n = cross(u, v);
        let normal = unit_vector(n);
        Triangle {
            v0,
            v1,
            v2,
            u,
            v,
            w: n.inverse(),
            mat,
            bbox: spec_triangle_bounding_box(v0, v1, v2),
            normal,
            d: dot(normal, v0),
        }
    }

    pub fn new(v0: Point3, v1: Point3, v2: Point3, mat: Arc<Material>) -> (r: Triangle)
        ensures
            r == Triangle::spec_new(v0, v1, v2, mat),
            r.normal.wf(),
    {
        let u = v1.sub(v0);
        let v = v2.sub(v0);
        let bbox = set_bounding_box(v0, v1, v2);
        let n = cross(u, v);
        let normal = unit_vector(n);
        let d = dot(normal, v0);
        let w = n.inverse();
        Triangle { v0, v1, v2, u, v, w, mat, bbox, normal, d }
    }

    /// The hit of `r` on the triangle inside the window `ray_t`, ends
    /// excluded. The surface coordinates of the hit are its coordinates
    /// along the two edges from `v0`.
    #[verifier::opaque]
    pub open spec fn spec_hit<'a>(&'a self, r: Ray, ray_t: Interval) -> Option<HitRecord<'a>> {
        match spec_plane_parameter(self.normal, self.d, r, ray_t) {
            None => None,
            Some(t) => {
                let intersection = r.at(t);
                let (alpha, beta) = spec_plane_coordinates(
                    self.v0,
                    self.u,
                    self.v,
                    self.w,
                    intersection,
                );
                if !spec_is_interior(alpha, beta) {
                    None
                } else {
                    Some(
                        HitRecord {
                            p: intersection,
                            normal: face_normal(r.direction, self.normal),
                            mat: &*self.mat,
                            t,
                            u: alpha,
                            v: beta,
                            front_face: front_face(r.direction, self.normal),
                        },
                    )
                }
            },
        }
    }

    pub fn hit<'a>(&'a self, r: &Ray, ray_t: Interval) -> (hit: Option<HitRecord<'a>>)
        ensures
            hit == self.spec_hit(*r, ray_t),
            hit matches Some(rec) ==> {
                &&& ray_t.min@ < rec.t@ < ray_t.max@
                &&& self.normal.wf() ==> dot(r.direction, rec.normal)@ <= 0
                &&& 0 <= rec.u@ <= ONE_RAW
                &&& 0 <= rec.v@ <= ONE_RAW
            },
    {
        reveal(Triangle::spec_hit);
        let t = match plane_parameter(self.normal, self.d, *r, ray_t) {
            None => {
                return None;
            },
            Some(t) => t,
        };
        let intersection = r.at(t);
        let (alpha, beta) = plane_coordinates(self.v0, self.u, self.v, self.w, intersection);
        if !is_interior(alpha, beta) {
            return None;
        }
        let front_face = front_face(r.direction(), self.normal);
        let normal = face_normal(r.direction(), self.normal);
        proof {
            if self.normal.wf() {
                lemma_face_normal_opposes(r.direction, self.normal);
            }
        }
        Some(HitRecord::new(intersection, normal, &*self.mat, t, alpha, beta, front_face))
    }
}

} // verus!
