//! Axis-aligned bounding boxes and the slab test of a ray against one.

use crate::fixed::{Fixed, ONE_RAW};
use crate::interval::Interval;
use crate::ray::Ray;
use crate::vec3::{Point3, Vec3};
use vstd::prelude::*;

verus! {

/// The box of the points whose three coordinates lie in `x`, `y` and `z`.
#[derive(Clone, Copy, Debug, PartialEq, Eq, Structural)]
pub struct AABB {
    pub x: Interval,
    pub y: Interval,
    pub z: Interval,
}

/// Raw value of 0.0001: by how much the box of a surface is wider than the
/// surface along each axis.
pub const BOX_PADDING_RAW: i64 = 429_497;

/// The range of ray parameters at which a ray that starts at coordinate
/// `origin` and moves by `direction` per unit of parameter lies between
/// the two planes of `extent`. A ray that runs along the planes lies between
/// them always or never.
pub open spec fn spec_slab(extent: Interval, origin: Fixed, direction: Fixed) -> Interval {
    let t0 = extent.min.sub(origin).div(direction);
    let t1 = extent.max.sub(origin).div(direction);
    Interval { min: t0.min(t1), max: t0.max(t1) }
}

/// The part of `window` that lies in `slab`.
pub open spec fn spec_clip(window: Interval, slab: Interval) -> Interval {
    Interval { min: window.min.max(slab.min), max: window.max.min(slab.max) }
}

fn slab(extent: &Interval, origin: Fixed, direction: Fixed) -> (r: Interval)
    ensures
        r == spec_slab(*extent, origin, direction),
{
    let t0 = extent.min.sub(origin).div(direction);
    let t1 = extent.max.sub(origin).div(direction);
    Interval { min: t0.min(t1), max: t0.max(t1) }
}

fn clip(window: Interval, slab: Interval) -> (r: Interval)
    ensures
        r == spec_clip(window, slab),
{
    Interval { min: window.min.max(slab.min), max: window.max.min(slab.max) }
}

impl AABB {
    /// The box that holds no point.
    pub open spec fn spec_empty() -> AABB {
        AABB { x: Interval::empty(), y: Interval::empty(), z: Interval::empty() }
    }

    pub open spec fn spec_from_intervals(x: Interval, y: Interval, z: Interval) -> AABB {
        AABB { x, y, z }
    }

    /// The box with opposite corners `a` and `b`, in either order.
    pub open spec fn spec_from_points(a: Point3, b: Point3) -> AABB {
        AABB {
            x: Interval { min: a.x.min(b.x), max: a.x.max(b.x) },
            y: Interval { min: a.y.min(b.y), max: a.y.max(b.y) },
            z: Interval { min: a.z.min(b.z), max: a.z.max(b.z) },
        }
    }

    /// The smallest box that holds both `box0` and `box1`.
    pub open spec fn spec_from_aabb(box0: AABB, box1: AABB) -> AABB {
        AABB {
            x: Interval::from_intervals(box0.x, box1.x),
            y: Interval::from_intervals(box0.y, box1.y),
            z: Interval::from_intervals(box0.z, box1.z),
        }
    }

    /// The extent along axis `n`: 1 is `y`, 2 is `z`, anything else `x`.
    pub open spec fn spec_axis_interval(&self, n: i32) -> Interval {
        if n == 1 {
            self.y
        } else if n == 2 {
            self.z
        } else {
            self.x
        }
    }

    /// The box moved by `offset`.
    pub open spec fn spec_translate(&self, offset: Vec3) -> AABB {
        AABB { x: self.x.add(offset.x), y: self.y.add(offset.y), z: self.z.add(offset.z) }
    }

    /// The box widened by `BOX_PADDING_RAW` along each axis, half of it at
    /// each end.
    pub open spec fn spec_padded(&self) -> AABB {
        AABB {
            x: self.x.expand(Fixed { raw: BOX_PADDING_RAW }),
            y: self.y.expand(Fixed { raw: BOX_PADDING_RAW }),
            z: self.z.expand(Fixed { raw: BOX_PADDING_RAW }),
        }
    }

    /// Whether `p` lies in the box, faces included.
    pub open spec fn spec_contains(&self, p: Point3) -> bool {
        self.x.contains(p.x) && self.y.contains(p.y) && self.z.contains(p.z)
    }

    /// The part of `ray_t` at which `r` lies inside all three slabs.
    pub open spec fn spec_clipped(&self, r: Ray, ray_t: Interval) -> Interval {
        spec_clip(
            spec_clip(
                spec_clip(ray_t, spec_slab(self.x, r.origin.x, r.direction.x)),
                spec_slab(self.y, r.origin.y, r.direction.y),
            ),
            spec_slab(self.z, r.origin.z, r.direction.z),
        )
    }

    /// Whether a stretch of the ray inside the window `ray_t` lies in the
    /// box: the window clipped by the three slabs keeps `min < max`.
    pub open spec fn spec_hit(&self, r: Ray, ray_t: Interval) -> bool {
        let w = self.spec_clipped(r, ray_t);
        w.min@ < w.max@
    }

    /// The axis of greatest extent: 0 (`x`) only where it exceeds both
    /// others, else 1 (`y`) where it exceeds `z`, else 2.
    pub open spec fn spec_longest_axis(&self) -> i32 {
        if self.x.size()@ > self.y.size()@ && self.x.size()@ > self.z.size()@ {
            0
        } else if self.y.size()@ > self.z.size()@ {
            1
        } else {
            2
        }
    }

    #[verifier::when_used_as_spec(spec_empty)]
    pub fn empty() -> (r: AABB)
        ensures
            r == AABB::spec_empty(),
    {
        AABB { x: Interval::empty(), y: Interval::empty(), z: Interval::empty() }
    }

    #[verifier::when_used_as_spec(spec_from_intervals)]
    pub fn from_intervals(x: Interval, y: Interval, z: Interval) -> (r: AABB)
        ensures
            r == AABB::spec_from_intervals(x, y, z),
    {
        AABB { x, y, z }
    }

    #[verifier::when_used_as_spec(spec_from_points)]
    pub fn from_points(a: Point3, b: Point3) -> (r: AABB)
        ensures
            r == AABB::spec_from_points(a, b),
            r == AABB::spec_from_points(b, a),
    {
        let x = if a.x.raw <= b.x.raw {
            Interval::new(a.x, b.x)
        } else {
            Interval::new(b.x, a.x)
        };
        let y = if a.y.raw <= b.y.raw {
            Interval::new(a.y, b.y)
        } else {
            Interval::new(b.y, a.y)
        };
        let z = if a.z.raw <= b.z.raw {
            Interval::new(a.z, b.z)
        } else {
            Interval::new(b.z, a.z)
        };
        AABB { x, y, z }
    }

    #[verifier::when_used_as_spec(spec_from_aabb)]
    pub fn from_aabb(box0: AABB, box1: AABB) -> (r: AABB)
        ensures
            r == AABB::spec_from_aabb(box0, box1),
    {
        let x = Interval::from_intervals(box0.x, box1.x);
        let y = Interval::from_intervals(box0.y, box1.y);
        let z = Interval::from_intervals(box0.z, box1.z);
        AABB { x, y, z }
    }

    pub fn axis_interval(&self, n: i32) -> (r: &Interval)
        ensures
            *r == self.spec_axis_interval(n),
    {
        if n == 1 {
            &self.y
        } else if n == 2 {
            &self.z
        } else {
            &self.x
        }
    }

    #[verifier::when_used_as_spec(spec_translate)]
    pub fn translate(&self, offset: Vec3) -> (r: AABB)
        ensures
            r == self.spec_translate(offset),
    {
        AABB { x: self.x.add(offset.x), y: self.y.add(offset.y), z: self.z.add(offset.z) }
    }

    /// The box of a surface is made wider than the surface, so that a flat
    /// surface has a box with an inside and a hit that rounding puts just
    /// off the surface is not hidden by the box.
    #[verifier::when_used_as_spec(spec_padded)]
    pub fn padded(&self) -> (r: AABB)
        ensures
            r == self.spec_padded(),
    {
        AABB {
            x: self.x.expand(Fixed { raw: BOX_PADDING_RAW }),
            y: self.y.expand(Fixed { raw: BOX_PADDING_RAW }),
            z: self.z.expand(Fixed { raw: BOX_PADDING_RAW }),
        }
    }

    #[verifier::when_used_as_spec(spec_contains)]
    pub fn contains(&self, p: Point3) -> (r: bool)
        ensures
            r == self.spec_contains(p),
    {
        self.x.contains(p.x) && self.y.contains(p.y) && self.z.contains(p.z)
    }

    /// The slab test: clips the window by the slab of each axis in turn and
    /// gives up as soon as nothing is left.
    pub fn hit(&self, r: &Ray, ray_t: Interval) -> (hit: bool)
        ensures
            hit == self.spec_hit(*r, ray_t),
    {
        let ray_orig = r.origin();
        let ray_dir = r.direction();
        let mut window = ray_t;
        let mut axis: usize = 0;
        while axis < 3
            invariant
                axis <= 3,
                ray_orig == r.origin,
                ray_dir == r.direction,
                axis == 0 ==> window == ray_t,
                axis == 1 ==> window == spec_clip(
                    ray_t,
                    spec_slab(self.x, r.origin.x, r.direction.x),
                ),
                axis == 2 ==> window == spec_clip(
                    spec_clip(ray_t, spec_slab(self.x, r.origin.x, r.direction.x)),
                    spec_slab(self.y, r.origin.y, r.direction.y),
                ),
                axis == 3 ==> window == self.spec_clipped(*r, ray_t),
                axis > 0 ==> window.min@ < window.max@,
            decreases 3 - axis,
        {
            let extent = self.axis_interval(axis as i32);
            window = clip(window, slab(extent, ray_orig.axis(axis), ray_dir.axis(axis)));
            if window.max.raw <= window.min.raw {
                return false;
            }
            axis += 1;
        }
        true
    }

    #[verifier::when_used_as_spec(spec_longest_axis)]
    pub fn longest_axis(&self) -> (r: i32)
        ensures
            r == self.spec_longest_axis(),
            0 <= r <= 2,
    {
        let x_size = self.x.size();
        let y_size = self.y.size();
        let z_size = self.z.size();
        if x_size.raw > y_size.raw && x_size.raw > z_size.raw {
            0
        } else if y_size.raw > z_size.raw {
            1
        } else {
            2
        }
    }
}

/// A box made from two corners does not depend on the order of the corners.
pub proof fn lemma_from_points_symmetric(a: Point3, b: Point3)
    ensures
        AABB::spec_from_points(a, b) == AABB::spec_from_points(b, a),
{
}

/// Along one axis, the ray starts between the planes of `extent` and not on
/// a plane that it leaves or runs along.
pub open spec fn starts_inside(extent: Interval, origin: Fixed, direction: Fixed) -> bool {
    &&& extent.min@ <= origin@ <= extent.max@
    &&& extent.min@ < extent.max@
    &&& origin@ == extent.min@ ==> direction@ > 0
    &&& origin@ == extent.max@ ==> direction@ < 0
    &&& -ONE_RAW <= direction@ <= ONE_RAW
}

proof fn lemma_quotient_positive(num: int, den: int)
    by (nonlinear_arith)
    requires
        num >= 1,
        0 < den <= ONE_RAW,
    ensures
        (num * ONE_RAW) / den >= 1,
{
}

/// Zero divided by anything but zero is zero.
proof fn lemma_quotient_zero(divisor: Fixed)
    requires
        divisor@ != 0,
    ensures
        Fixed::spec_zero().spec_div(divisor) == Fixed::spec_zero(),
{
    let den = divisor@;
    assert(0int * (ONE_RAW as int) == 0);
    if den > 0 {
        assert(0int / den == 0) by (nonlinear_arith)
            requires
                den > 0,
        ;
    } else {
        assert(0int / (-den) == 0) by (nonlinear_arith)
            requires
                den < 0,
        ;
    }
}

/// Along one axis: a ray that starts inside the slab stays in it for a
/// stretch of parameters that begins at or before zero and ends after it.
proof fn lemma_slab_from_inside(extent: Interval, origin: Fixed, direction: Fixed)
    requires
        starts_inside(extent, origin, direction),
    ensures
        spec_slab(extent, origin, direction).min@ <= 0,
        spec_slab(extent, origin, direction).max@ >= 1,
{
    let lo = extent.min.sub(origin);
    let hi = extent.max.sub(origin);
    let d = direction@;
    assert(lo@ <= 0 && hi@ >= 0);
    assert(lo@ == 0 <==> origin@ == extent.min@);
    assert(hi@ == 0 <==> origin@ == extent.max@);
    let t0 = lo.div(direction);
    let t1 = hi.div(direction);
    if d == 0 {
        assert(lo@ < 0 && hi@ > 0);
    } else if d > 0 {
        assert(hi@ >= 1);
        lemma_quotient_positive(hi@, d);
        assert(t1@ >= 1);
        if lo@ == 0 {
            lemma_quotient_zero(direction);
        } else {
            assert((-lo@ * ONE_RAW) / d >= 0) by (nonlinear_arith)
                requires
                    -lo@ >= 0,
                    d > 0,
            ;
            assert(-lo@ * ONE_RAW == -(lo@ * ONE_RAW)) by (nonlinear_arith);
            assert(lo@ * ONE_RAW < 0) by (nonlinear_arith)
                requires
                    lo@ < 0,
            ;
        }
        assert(t0@ <= 0);
    } else {
        assert(lo@ <= -1);
        lemma_quotient_positive(-lo@, -d);
        assert(-lo@ * ONE_RAW == -(lo@ * ONE_RAW)) by (nonlinear_arith);
        assert(lo@ * ONE_RAW < 0) by (nonlinear_arith)
            requires
                lo@ < 0,
        ;
        assert(t0@ >= 1);
        if hi@ == 0 {
            lemma_quotient_zero(direction);
        } else {
            assert((hi@ * ONE_RAW) / (-d) >= 0) by (nonlinear_arith)
                requires
                    hi@ >= 0,
                    -d > 0,
            ;
            assert(hi@ * ONE_RAW > 0) by (nonlinear_arith)
                requires
                    hi@ > 0,
            ;
        }
        assert(t1@ <= 0);
    }
}

/// A ray that starts in a box is found by the slab test on the window
/// `(0, +∞)`, whatever its direction with components of magnitude at most
/// one, unless it starts on a face that it leaves or runs along.
pub proof fn lemma_ray_from_inside_hits(b: AABB, r: Ray)
    requires
        starts_inside(b.x, r.origin.x, r.direction.x),
        starts_inside(b.y, r.origin.y, r.direction.y),
        starts_inside(b.z, r.origin.z, r.direction.z),
    ensures
        b.spec_contains(r.origin),
        b.spec_hit(r, Interval::spec_new(Fixed::spec_zero(), Fixed::spec_infinity())),
{
    lemma_slab_from_inside(b.x, r.origin.x, r.direction.x);
    lemma_slab_from_inside(b.y, r.origin.y, r.direction.y);
    lemma_slab_from_inside(b.z, r.origin.z, r.direction.z);
}

} // verus!
