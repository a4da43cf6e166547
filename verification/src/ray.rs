//! Rays: a start point, a direction and the moment of the shutter at which
//! the ray was cast.

use crate::fixed::Fixed;
use crate::vec3::{Point3, Vec3};
use vstd::prelude::*;

verus! {

/// The points `origin + t·direction`. The direction need not have length one.
#[derive(Clone, Copy, Debug, PartialEq, Eq, Structural)]
pub struct Ray {
    pub origin: Point3,
    pub direction: Vec3,
    pub time: Fixed,
}

impl Ray {
    pub open spec fn spec_new(origin: Point3, direction: Vec3, time: Fixed) -> Ray {
        Ray { origin, direction, time }
    }

    /// The point of the ray at parameter `t`.
    pub open spec fn spec_at(&self, t: Fixed) -> Point3 {
        self.origin.add(self.direction.scale(t))
    }

    #[verifier::when_used_as_spec(spec_new)]
    pub fn new(origin: Point3, direction: Vec3, time: Fixed) -> (r: Ray)
        ensures
            r == Ray::spec_new(origin, direction, time),
    {
        Ray { origin, direction, time }
    }

    pub fn origin(&self) -> (r: Point3)
        ensures
            r == self.origin,
    {
        self.origin
    }

    pub fn direction(&self) -> (r: Vec3)
        ensures
            r == self.direction,
    {
        self.direction
    }

    pub fn time(&self) -> (r: Fixed)
        ensures
            r == self.time,
    {
        self.time
    }

    #[verifier::when_used_as_spec(spec_at)]
    pub fn at(&self, t: Fixed) -> (r: Point3)
        ensures
            r == self.spec_at(t),
    {
        self.origin.add(self.direction.scale(t))
    }
}

} // verus!
