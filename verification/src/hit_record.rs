//! What a ray learns where it meets a surface.

use crate::fixed::Fixed;
use crate::material::Material;
use crate::vec3::{dot, Point3, Vec3};
use vstd::prelude::*;

verus! {

/// A hit: the point `p` at ray parameter `t`, the unit normal there turned
/// against the ray, the material, the surface coordinates `(u, v)`, and
/// whether the ray met the outer side of the surface.
pub struct HitRecord<'a> {
    pub p: Point3,
    pub normal: Vec3,
    pub mat: &'a Material,
    pub t: Fixed,
    pub u: Fixed,
    pub v: Fixed,
    pub front_face: bool,
}

/// Whether a ray of direction `direction` meets the outer side of a surface
/// with outward normal `outward_normal`.
pub open spec fn spec_front_face(direction: Vec3, outward_normal: Vec3) -> bool {
    dot(direction, outward_normal)@ < 0
}

/// The normal turned against the ray: the outward normal on the outer side,
/// its opposite on the inner side.
pub open spec fn spec_face_normal(direction: Vec3, outward_normal: Vec3) -> Vec3 {
    if spec_front_face(direction, outward_normal) {
        outward_normal
    } else {
        outward_normal.neg()
    }
}

#[verifier::when_used_as_spec(spec_front_face)]
pub fn front_face(direction: Vec3, outward_normal: Vec3) -> (r: bool)
    ensures
        r == spec_front_face(direction, outward_normal),
{
    dot(direction, outward_normal).raw < 0
}

#[verifier::when_used_as_spec(spec_face_normal)]
pub fn face_normal(direction: Vec3, outward_normal: Vec3) -> (r: Vec3)
    ensures
        r == spec_face_normal(direction, outward_normal),
{
    if front_face(direction, outward_normal) {
        outward_normal
    } else {
        outward_normal.neg()
    }
}

/// The normal turned against the ray does not point along it.
pub proof fn lemma_face_normal_opposes(direction: Vec3, outward_normal: Vec3)
    requires
        outward_normal.wf(),
    ensures
        dot(direction, spec_face_normal(direction, outward_normal))@ <= 0,
{
    crate::vec3::lemma_dot_neg(direction, outward_normal);
}

impl<'a> HitRecord<'a> {
    pub fn new(
        p: Point3,
        normal: Vec3,
        mat: &'a Material,
        t: Fixed,
        u: Fixed,
        v: Fixed,
        front_face: bool,
    ) -> (r: HitRecord<'a>)
        ensures
            r == (HitRecord { p, normal, mat, t, u, v, front_face }),
    {
        HitRecord { p, normal, mat, t, u, v, front_face }
    }
}

} // verus!
