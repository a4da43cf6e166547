//! Orthonormal bases: three directions at right angles, built around one.

use crate::fixed::Fixed;
use crate::vec3::{cross, unit_vector, Vec3};
use vstd::prelude::*;

verus! {

/// Raw value of 0.9, the limit beyond which the x axis is too close to `w`
/// to build the basis from.
pub const NEAR_X_AXIS_RAW: i64 = 3_865_470_566;

#[derive(Clone, Copy, Debug, PartialEq, Eq, Structural)]
pub struct Onb {
    pub u: Vec3,
    pub v: Vec3,
    pub w: Vec3,
}

impl Onb {
    /// The basis around `n`: `w` is the direction of `n`, `v` the direction
    /// of `w × a` where `a` is the y axis if `|w.x| > 0.9` and the x axis
    /// otherwise, and `u = w × v`.
    pub open spec fn spec_new(n: Vec3) -> Onb {
        let w = unit_vector(n);
        let a = if w.x.abs()@ > NEAR_X_AXIS_RAW {
            Vec3 { x: Fixed::zero(), y: Fixed::one(), z: Fixed::zero() }
        } else {
            Vec3 { x: Fixed::one(), y: Fixed::zero(), z: Fixed::zero() }
        };
        let v = unit_vector(cross(w, a));
        let u = cross(w, v);
        Onb { u, v, w }
    }

    /// The vector with coordinates `v` in the basis: `v.x·u + v.y·v + v.z·w`.
    pub open spec fn spec_transform(&self, v: Vec3) -> Vec3 {
        self.u.scale(v.x).add(self.v.scale(v.y)).add(self.w.scale(v.z))
    }

    #[verifier::when_used_as_spec(spec_new)]
    pub fn new(n: Vec3) -> (r: Onb)
        ensures
            r == Onb::spec_new(n),
    {
        let w = unit_vector(n);
        let a = if w.x.abs().raw > NEAR_X_AXIS_RAW {
            Vec3::new(Fixed::zero(), Fixed::one(), Fixed::zero())
        } else {
            Vec3::new(Fixed::one(), Fixed::zero(), Fixed::zero())
        };
        let v = unit_vector(cross(w, a));
        let u = cross(w, v);
        Onb { u, v, w }
    }

    pub fn u(&self) -> (r: Vec3)
        ensures
            r == self.u,
    {
        self.u
    }

    pub fn v(&self) -> (r: Vec3)
        ensures
            r == self.v,
    {
        self.v
    }

    pub fn w(&self) -> (r: Vec3)
        ensures
            r == self.w,
    {
        self.w
    }

    #[verifier::when_used_as_spec(spec_transform)]
    pub fn transform(&self, v: Vec3) -> (r: Vec3)
        ensures
            r == self.spec_transform(v),
    {
        self.u().scale(v.x()).add(self.v().scale(v.y())).add(self.w().scale(v.z()))
    }
}

} // verus!
