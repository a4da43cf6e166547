//! Intervals of the number line, used as ray windows and box extents.

use crate::fixed::Fixed;
use vstd::prelude::*;

verus! {

/// The numbers from `min` to `max`. An interval with `min > max` holds none.
#[derive(Clone, Copy, Debug, PartialEq, Eq, Structural)]
pub struct Interval {
    pub min: Fixed,
    pub max: Fixed,
}

impl Interval {
    pub open spec fn spec_new(min: Fixed, max: Fixed) -> Interval {
        Interval { min, max }
    }

    /// The interval that holds no number: `(+∞, -∞)`.
    pub open spec fn spec_empty() -> Interval {
        Interval { min: Fixed::infinity(), max: Fixed::neg_infinity() }
    }

    /// The interval that holds every number: `(-∞, +∞)`.
    pub open spec fn spec_universe() -> Interval {
        Interval { min: Fixed::neg_infinity(), max: Fixed::infinity() }
    }

    /// The smallest interval that holds both `a` and `b`.
    pub open spec fn spec_from_intervals(a: Interval, b: Interval) -> Interval {
        Interval { min: a.min.min(b.min), max: a.max.max(b.max) }
    }

    pub open spec fn spec_size(&self) -> Fixed {
        self.max.sub(self.min)
    }

    /// Whether `x` lies in the interval, ends included.
    pub open spec fn spec_contains(&self, x: Fixed) -> bool {
        self.min@ <= x@ <= self.max@
    }

    /// Whether `x` lies in the interval, ends excluded.
    pub open spec fn spec_surrounds(&self, x: Fixed) -> bool {
        self.min@ < x@ < self.max@
    }

    /// The number of the interval nearest to `x`, for `min <= max`.
    pub open spec fn spec_clamp(&self, x: Fixed) -> Fixed {
        if x@ < self.min@ {
            self.min
        } else if x@ > self.max@ {
            self.max
        } else {
            x
        }
    }

    /// The interval widened by `delta / 2` at each end.
    pub open spec fn spec_expand(&self, delta: Fixed) -> Interval {
        let padding = delta.div(Fixed::from_int(2));
        Interval { min: self.min.sub(padding), max: self.max.add(padding) }
    }

    /// The interval moved by `displacement`.
    pub open spec fn spec_add(self, displacement: Fixed) -> Interval {
        Interval { min: self.min.add(displacement), max: self.max.add(displacement) }
    }

    #[verifier::when_used_as_spec(spec_new)]
    pub fn new(min: Fixed, max: Fixed) -> (r: Interval)
        ensures
            r == Interval::spec_new(min, max),
    {
        Interval { min, max }
    }

    #[verifier::when_used_as_spec(spec_empty)]
    pub fn empty() -> (r: Interval)
        ensures
            r == Interval::spec_empty(),
    {
        Interval { min: Fixed::infinity(), max: Fixed::neg_infinity() }
    }

    #[verifier::when_used_as_spec(spec_universe)]
    pub fn universe() -> (r: Interval)
        ensures
            r == Interval::spec_universe(),
    {
        Interval { min: Fixed::neg_infinity(), max: Fixed::infinity() }
    }

    #[verifier::when_used_as_spec(spec_from_intervals)]
    pub fn from_intervals(a: Interval, b: Interval) -> (r: Interval)
        ensures
            r == Interval::spec_from_intervals(a, b),
    {
        let min = if a.min.raw <= b.min.raw {
            a.min
        } else {
            b.min
        };
        let max = if a.max.raw >= b.max.raw {
            a.max
        } else {
            b.max
        };
        Interval { min, max }
    }

    #[verifier::when_used_as_spec(spec_size)]
    pub fn size(&self) -> (r: Fixed)
        ensures
            r == self.spec_size(),
    {
        self.max.sub(self.min)
    }

    #[verifier::when_used_as_spec(spec_contains)]
    pub fn contains(&self, x: Fixed) -> (r: bool)
        ensures
            r == self.spec_contains(x),
    {
        self.min.raw <= x.raw && x.raw <= self.max.raw
    }

    #[verifier::when_used_as_spec(spec_surrounds)]
    pub fn surrounds(&self, x: Fixed) -> (r: bool)
        ensures
            r == self.spec_surrounds(x),
    {
        self.min.raw < x.raw && x.raw < self.max.raw
    }

    #[verifier::when_used_as_spec(spec_clamp)]
    pub fn clamp(&self, x: Fixed) -> (r: Fixed)
        requires
            self.min@ <= self.max@,
        ensures
            r == self.spec_clamp(x),
            self.spec_contains(r),
    {
        if x.raw < self.min.raw {
            self.min
        } else if x.raw > self.max.raw {
            self.max
        } else {
            x
        }
    }

    #[verifier::when_used_as_spec(spec_expand)]
    pub fn expand(&self, delta: Fixed) -> (r: Interval)
        ensures
            r == self.spec_expand(delta),
    {
        let padding = delta.div(Fixed::from_int(2));
        Interval { min: self.min.sub(padding), max: self.max.add(padding) }
    }

    #[verifier::when_used_as_spec(spec_add)]
    pub fn add(self, displacement: Fixed) -> (r: Interval)
        ensures
            r == self.spec_add(displacement),
    {
        Interval::new(self.min.add(displacement), self.max.add(displacement))
    }
}

} // verus!
