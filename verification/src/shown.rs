//! When a box shows a hit.
//!
//! The slab test works with rounded quotients, and the point of a hit
//! with rounded products. A box therefore shows a hit for certain only if
//! it holds the point of the hit with a margin that covers the rounding.

use crate::aabb::{spec_clip, spec_slab, AABB};
use crate::bvh::BVHNode;
use crate::fixed::{trunc_div, Fixed, MAX_RAW, ONE_RAW};
use crate::hittable::Hittable;
use crate::hittable_list::spec_closest;
use crate::interval::Interval;
use crate::nearest::{
    all_answer_by_nearest, all_boxes_show, answers_by_nearest, box_shows, is_proper_box,
    lemma_hierarchy_agrees_with_list, lemma_sphere_answers_by_nearest, spec_hit_time, spec_time,
    spec_until,
};
use crate::norm::magnitude;
use crate::ray::Ray;
use crate::reflection::{lemma_product_within, lemma_rounded, rounded};
use crate::sphere::Sphere;
use crate::surface::{
    is_within_reach, lemma_quotient_is_near, lemma_sphere_hit_lies_on_the_sphere,
};
use crate::vec3::Vec3;
use vstd::prelude::*;

verus! {

/// Raw value of 16384: the greatest magnitude of a moderate number.
pub const MODERATE_RAW: i64 = 0x4000_0000_0000;

/// Whether `x` is of moderate size.
pub open spec fn is_moderate(x: Fixed) -> bool {
    magnitude(x@) <= MODERATE_RAW
}

/// The margin, in units of the last place, that covers the rounding of the
/// slab test for a ray that moves by `direction` per unit of parameter.
pub open spec fn spec_margin(direction: Fixed) -> int {
    magnitude(direction@) / (ONE_RAW as int) + 2
}

/// Whether, on one axis, the point of the ray at parameter `t` lies in
/// `extent` with the margin of the ray to spare at both ends, all numbers
/// being moderate.
pub open spec fn axis_holds_point(extent: Interval, origin: Fixed, direction: Fixed, t: Fixed)
    -> bool {
    let p = origin.spec_add(direction.spec_mul(t));
    &&& is_moderate(extent.min)
    &&& is_moderate(extent.max)
    &&& is_moderate(origin)
    &&& is_moderate(direction)
    &&& is_moderate(t)
    &&& extent.min@ + spec_margin(direction) <= p@ <= extent.max@ - spec_margin(direction)
}

/// Whether the point of `r` at parameter `t` lies in the box with the
/// margin of the ray to spare on every side.
pub open spec fn box_holds_point(b: AABB, r: Ray, t: Fixed) -> bool {
    &&& axis_holds_point(b.x, r.origin.x, r.direction.x, t)
    &&& axis_holds_point(b.y, r.origin.y, r.direction.y, t)
    &&& axis_holds_point(b.z, r.origin.z, r.direction.z, t)
}

fn is_moderate_number(x: Fixed) -> (r: bool)
    ensures
        r == is_moderate(x),
{
    -MODERATE_RAW <= x.raw && x.raw <= MODERATE_RAW
}

/// Whether, on one axis, the extent holds the point of the ray at
/// parameter `t` with the margin of the ray to spare.
pub fn axis_holds(extent: &Interval, origin: Fixed, direction: Fixed, t: Fixed) -> (r: bool)
    ensures
        r == axis_holds_point(*extent, origin, direction, t),
{
    if !(is_moderate_number(extent.min) && is_moderate_number(extent.max) && is_moderate_number(
        origin,
    ) && is_moderate_number(direction) && is_moderate_number(t)) {
        return false;
    }
    let size: i64 = if direction.raw < 0 {
        -direction.raw
    } else {
        direction.raw
    };
    let margin: i64 = size / ONE_RAW + 2;
    let p = origin.add(direction.mul(t));
    extent.min.raw + margin <= p.raw && p.raw <= extent.max.raw - margin
}

/// Whether the box holds the point of `r` at parameter `t` with the margin
/// of the ray to spare on every side.
pub fn holds_point(b: &AABB, r: &Ray, t: Fixed) -> (held: bool)
    ensures
        held == box_holds_point(*b, *r, t),
{
    axis_holds(&b.x, r.origin.x, r.direction.x, t) && axis_holds(
        &b.y,
        r.origin.y,
        r.direction.y,
        t,
    ) && axis_holds(&b.z, r.origin.z, r.direction.z, t)
}

/// A quotient by a negative divisor is the quotient of the negated
/// dividend by the negated divisor.
proof fn lemma_quotient_of_negatives(a: int, d: int)
    requires
        d < 0,
    ensures
        trunc_div(a, d) == trunc_div(-a, -d),
{
}

/// With a margin of `d / n + 2` the rounding is covered: `(m - 1)·n > d`.
proof fn lemma_margin_covers(d: int, n: int, m: int)
    requires
        n > 0,
        d >= 0,
        m == d / n + 2,
    ensures
        (m - 1) * n > d,
{
    vstd::arithmetic::div_mod::lemma_fundamental_div_mod(d, n);
    assert((d / n + 1) * n == n * (d / n) + n) by (nonlinear_arith);
}

/// The slab of a positive direction, before saturation: the quotient for
/// the near plane lies below `t` and that for the far plane above, where
/// the rounded product `x` of direction and `t` lies between the planes
/// with the margin to spare.
proof fn lemma_quotients_surround(lo: int, hi: int, d: int, t: int, x: int, n: int, m: int)
    requires
        n > 0,
        d > 0,
        (m - 1) * n > d,
        -n < d * t - n * x < n,
        lo + m <= x <= hi - m,
    ensures
        trunc_div(lo * n, d) < t < trunc_div(hi * n, d),
{
    let q0 = trunc_div(lo * n, d);
    let q1 = trunc_div(hi * n, d);
    lemma_quotient_is_near(lo * n, d);
    lemma_quotient_is_near(hi * n, d);
    assert(n * x >= n * lo + n * m) by (nonlinear_arith)
        requires
            x >= lo + m,
            n > 0,
    ;
    assert(n * x <= n * hi - n * m) by (nonlinear_arith)
        requires
            x <= hi - m,
            n > 0,
    ;
    assert((m - 1) * n == n * m - n) by (nonlinear_arith);
    assert(lo * n == n * lo && hi * n == n * hi) by (nonlinear_arith);
    if q0 >= t {
        assert(d * q0 >= d * t) by (nonlinear_arith)
            requires
                q0 >= t,
                d > 0,
        ;
    }
    if q1 <= t {
        assert(d * q1 <= d * t) by (nonlinear_arith)
            requires
                q1 <= t,
                d > 0,
        ;
    }
}

/// The slab of an axis surrounds the parameter of a point that the extent
/// holds with the margin to spare.
pub proof fn lemma_slab_surrounds(extent: Interval, origin: Fixed, direction: Fixed, t: Fixed)
    requires
        axis_holds_point(extent, origin, direction, t),
    ensures
        spec_slab(extent, origin, direction).min@ < t@ < spec_slab(extent, origin, direction).max@,
{
    let n = ONE_RAW as int;
    let d = direction@;
    let m = spec_margin(direction);
    let lo = extent.min@ - origin@;
    let hi = extent.max@ - origin@;
    lemma_product_within(d, t@, MODERATE_RAW as int, MODERATE_RAW as int);
    lemma_rounded(d * t@);
    assert(magnitude(rounded(d * t@)) * n <= 0x4000_0000_0000 * 0x4000_0000_0000);
    assert(magnitude(rounded(d * t@)) <= 0x1000_0000_0000_0000);
    let x = direction.spec_mul(t)@;
    assert(x == rounded(d * t@));
    let p = origin.spec_add(direction.spec_mul(t));
    assert(p@ == origin@ + x);
    assert(extent.min.spec_sub(origin)@ == lo);
    assert(extent.max.spec_sub(origin)@ == hi);
    let t0 = extent.min.spec_sub(origin).spec_div(direction);
    let t1 = extent.max.spec_sub(origin).spec_div(direction);
    if d > 0 {
        lemma_margin_covers(d, n, m);
        lemma_quotients_surround(lo, hi, d, t@, x, n, m);
        assert(t0@ < t@ < t1@);
    } else if d < 0 {
        lemma_margin_covers(-d, n, m);
        lemma_quotient_of_negatives(lo * n, d);
        lemma_quotient_of_negatives(hi * n, d);
        assert(-(lo * n) == (-lo) * n && -(hi * n) == (-hi) * n) by (nonlinear_arith);
        assert((-d) * t@ == -(d * t@)) by (nonlinear_arith);
        assert(n * (-x) == -(n * x)) by (nonlinear_arith);
        lemma_quotients_surround(-hi, -lo, -d, t@, -x, n, m);
        assert(t1@ < t@ < t0@);
    } else {
        assert(d * t@ == 0) by (nonlinear_arith)
            requires
                d == 0,
        ;
        assert(x == 0);
        assert(t0@ == -MAX_RAW && t1@ == MAX_RAW);
    }
}

/// A box shows every point that it holds with the margin to spare: the
/// slab test finds the ray in the box in every window that holds the
/// parameter of the point strictly inside.
pub proof fn lemma_box_shows_point(b: AABB, r: Ray, w: Interval, t: Fixed)
    requires
        box_holds_point(b, r, t),
        w.min@ < t@ < w.max@,
    ensures
        b.spec_hit(r, w),
{
    lemma_slab_surrounds(b.x, r.origin.x, r.direction.x, t);
    lemma_slab_surrounds(b.y, r.origin.y, r.direction.y, t);
    lemma_slab_surrounds(b.z, r.origin.z, r.direction.z, t);
    let sx = spec_slab(b.x, r.origin.x, r.direction.x);
    let sy = spec_slab(b.y, r.origin.y, r.direction.y);
    let sz = spec_slab(b.z, r.origin.z, r.direction.z);
    let c = spec_clip(spec_clip(spec_clip(w, sx), sy), sz);
    assert(c.min@ < t@ < c.max@);
}

/// Whether the box of `o` is proper and holds the point at which `o`
/// reports a hit of `r` inside `w`, if it reports one, with the margin of
/// the ray to spare.
pub open spec fn hit_lies_in_box(o: Hittable, r: Ray, w: Interval) -> bool {
    &&& is_proper_box(o.spec_bounding_box())
    &&& spec_hit_time(o, r, w) matches Some(t) ==> box_holds_point(o.spec_bounding_box(), r, t)
}

/// The box of an object that answers by its nearest hit shows the hit if
/// it holds the point of the hit with the margin to spare.
pub proof fn lemma_box_shows_hit(o: Hittable, r: Ray, w: Interval)
    requires
        answers_by_nearest(o, r, w),
        hit_lies_in_box(o, r, w),
    ensures
        box_shows(o, r, w),
{
    assert forall|limit: Fixed| limit@ <= w.max@ && #[trigger] spec_hit_time(
        o,
        r,
        spec_until(w, limit),
    ) is Some implies o.spec_bounding_box().spec_hit(r, spec_until(w, limit)) by {
        let t = spec_hit_time(o, r, w)->Some_0;
        lemma_box_shows_point(o.spec_bounding_box(), r, spec_until(w, limit), t);
    }
}

/// Whether each of `objects` answers by its nearest hit along `r` inside
/// `w` and has a box that holds the point of that hit with the margin to
/// spare.
pub open spec fn boxes_hold_hits(objects: Seq<Hittable>, r: Ray, w: Interval) -> bool {
    forall|i: int|
        0 <= i < objects.len() ==> answers_by_nearest(#[trigger] objects[i], r, w)
            && hit_lies_in_box(objects[i], r, w)
}

/// A hierarchy finds what a list finds, wherever the boxes hold the hits.
/// For a well-formed tree whose objects are those of a list, in whatever
/// order, and a ray whose hit on each object lies in the box of the object
/// with the margin of the ray to spare: the tree and the list report hits
/// at the same ray parameter, or both report none.
pub proof fn lemma_hierarchy_agrees_where_boxes_hold_hits(
    node: BVHNode,
    objects: Seq<Hittable>,
    r: Ray,
    w: Interval,
)
    requires
        node.well_formed(),
        node.leaves().to_multiset() == objects.to_multiset(),
        boxes_hold_hits(objects, r, w),
    ensures
        spec_time(node.spec_hit(r, w)) == spec_time(
            spec_closest(objects, r, w, objects.len() as int),
        ),
{
    assert forall|i: int| 0 <= i < objects.len() implies box_shows(#[trigger] objects[i], r, w) by {
        lemma_box_shows_hit(objects[i], r, w);
    }
    assert(all_answer_by_nearest(objects, r, w));
    assert(all_boxes_show(objects, r, w));
    lemma_hierarchy_agrees_with_list(node, objects, r, w);
}

/// A number whose square is at most `r² + 2400·k²·n`, for `r` of at least
/// a sixteenth of `k²·n`, is at most `r + 19200` in magnitude.
proof fn lemma_within_padded_radius(q: int, rest: int, r: int, n: int, kk: int)
    by (nonlinear_arith)
    requires
        n > 0,
        kk > 0,
        16 * r >= kk * n,
        rest >= 0,
        q * q + rest <= r * r + 2400 * kk * n,
    ensures
        -(r + 19200) <= q <= r + 19200,
{
}

/// The box of a sphere at rest holds its hits. For a sphere at rest and a
/// ray that fit a scene of scale `k`, a radius of at least `k² / 16`, and a
/// hit whose parameter is at most `16·k` in magnitude: the sphere answers
/// by its nearest hit, and its box holds the point of the hit with the
/// margin of the ray to spare.
pub proof fn lemma_sphere_is_held_by_its_box(s: Sphere, r: Ray, w: Interval, k: int)
    requires
        is_within_reach(s, r, k),
        s.center.direction == Vec3::spec_zero(),
        s.bbox == Sphere::spec_box_around(s.center.origin, s.radius),
        16 * s.radius@ >= k * k * ONE_RAW,
        s.spec_hit(r, w) matches Some(rec) ==> magnitude(rec.t@) <= 16 * k * ONE_RAW,
    ensures
        answers_by_nearest(Hittable::Sphere(s), r, w),
        hit_lies_in_box(Hittable::Sphere(s), r, w),
{
    let o = Hittable::Sphere(s);
    let n = ONE_RAW as int;
    let kk = k * k;
    assert(kk >= 1) by (nonlinear_arith)
        requires
            kk == k * k,
            k >= 1,
    ;
    lemma_sphere_answers_by_nearest(s, r, w);
    let c = s.center.origin;
    crate::fixed::lemma_zero_products();
    assert(Fixed::spec_zero().spec_mul(r.time)@ == 0) by {
        assert(0 * r.time@ == 0);
    }
    let cc = s.center.spec_at(r.time);
    assert(cc == c);
    let b = o.spec_bounding_box();
    assert(b == s.bbox);
    assert(b.x == spec_extent_around(c.x, s.radius));
    assert(b.y == spec_extent_around(c.y, s.radius));
    assert(b.z == spec_extent_around(c.z, s.radius));
    lemma_extent_is_proper(c.x, s.radius, k);
    lemma_extent_is_proper(c.y, s.radius, k);
    lemma_extent_is_proper(c.z, s.radius, k);
    if let Some(rec) = s.spec_hit(r, w) {
        lemma_sphere_hit_lies_on_the_sphere(s, r, w, k);
        reveal(Sphere::spec_hit);
        let t = rec.t;
        assert(rec.p == r.spec_at(t));
        let q = rec.p.spec_sub(cc);
        assert(q.x@ * q.x@ >= 0 && q.y@ * q.y@ >= 0 && q.z@ * q.z@ >= 0) by (nonlinear_arith);
        assert(2400 * (k * k) * ONE_RAW == 2400 * kk * n);
        lemma_within_padded_radius(q.x@, q.y@ * q.y@ + q.z@ * q.z@, s.radius@, n, kk);
        lemma_within_padded_radius(q.y@, q.x@ * q.x@ + q.z@ * q.z@, s.radius@, n, kk);
        lemma_within_padded_radius(q.z@, q.x@ * q.x@ + q.y@ * q.y@, s.radius@, n, kk);
        lemma_point_is_moderate(r.origin.x, r.direction.x, t, k);
        lemma_point_is_moderate(r.origin.y, r.direction.y, t, k);
        lemma_point_is_moderate(r.origin.z, r.direction.z, t, k);
        assert(q.x@ == rec.p.x@ - c.x@);
        assert(q.y@ == rec.p.y@ - c.y@);
        assert(q.z@ == rec.p.z@ - c.z@);
        lemma_axis_of_sphere_holds(c.x, s.radius, r.origin.x, r.direction.x, t, k);
        lemma_axis_of_sphere_holds(c.y, s.radius, r.origin.y, r.direction.y, t, k);
        lemma_axis_of_sphere_holds(c.z, s.radius, r.origin.z, r.direction.z, t, k);
    }
}

/// The extent of the box of a sphere along one axis.
pub open spec fn spec_extent_around(c: Fixed, radius: Fixed) -> Interval {
    Interval {
        min: c.spec_sub(radius).spec_min(c.spec_add(radius)),
        max: c.spec_sub(radius).spec_max(c.spec_add(radius)),
    }.spec_expand(Fixed { raw: crate::aabb::BOX_PADDING_RAW })
}

/// On one axis, the box of a sphere holds a point of the ray that lies
/// within the radius and 19200 units in the last place of the centre.
proof fn lemma_axis_of_sphere_holds(
    c: Fixed,
    radius: Fixed,
    origin: Fixed,
    direction: Fixed,
    t: Fixed,
    k: int,
)
    requires
        1 <= k <= crate::surface::MAX_SCALE,
        magnitude(c@) <= 4 * k * ONE_RAW,
        0 <= radius@ <= 4 * k * ONE_RAW,
        magnitude(origin@) <= 4 * k * ONE_RAW,
        magnitude(direction@) <= 0x2_0000_0000,
        magnitude(t@) <= 16 * k * ONE_RAW,
        spec_margin(direction) <= 4,
        magnitude(origin.spec_add(direction.spec_mul(t))@ - c@) <= radius@ + 19200,
    ensures
        axis_holds_point(spec_extent_around(c, radius), origin, direction, t),
{
    let padding = Fixed { raw: crate::aabb::BOX_PADDING_RAW }.spec_div(Fixed::spec_from_int(2));
    assert(Fixed::spec_from_int(2)@ == 0x2_0000_0000);
    assert(429_497 * 0x1_0000_0000int / 0x2_0000_0000int == 214_748);
    assert(padding@ == 214_748);
    let e = spec_extent_around(c, radius);
    assert(e.min@ == c@ - radius@ - 214_748);
    assert(e.max@ == c@ + radius@ + 214_748);
}

/// The extent of the box of a sphere of a scene of scale `k` is proper.
proof fn lemma_extent_is_proper(c: Fixed, radius: Fixed, k: int)
    requires
        1 <= k <= crate::surface::MAX_SCALE,
        magnitude(c@) <= 4 * k * ONE_RAW,
        0 <= radius@ <= 4 * k * ONE_RAW,
    ensures
        spec_extent_around(c, radius).min@ <= spec_extent_around(c, radius).max@,
{
    let padding = Fixed { raw: crate::aabb::BOX_PADDING_RAW }.spec_div(Fixed::spec_from_int(2));
    assert(Fixed::spec_from_int(2)@ == 0x2_0000_0000);
    assert(429_497 * 0x1_0000_0000int / 0x2_0000_0000int == 214_748);
    assert(padding@ == 214_748);
}

/// The point of a ray of a scene of scale `k` at a parameter of at most
/// `16·k` in magnitude lies within `36·k` of the origin.
proof fn lemma_point_is_moderate(origin: Fixed, direction: Fixed, t: Fixed, k: int)
    requires
        1 <= k <= crate::surface::MAX_SCALE,
        magnitude(origin@) <= 4 * k * ONE_RAW,
        magnitude(direction@) <= 0x2_0000_0000,
        magnitude(t@) <= 16 * k * ONE_RAW,
    ensures
        magnitude(origin.spec_add(direction.spec_mul(t))@) <= 36 * k * ONE_RAW,
        spec_margin(direction) <= 4,
{
    let n = ONE_RAW as int;
    assert(0x2_0000_0000 * (16 * k * n) == 32 * k * (n * n)) by (nonlinear_arith)
        requires
            n == 0x1_0000_0000,
    ;
    assert(n * n == 0x1_0000_0000_0000_0000) by (nonlinear_arith)
        requires
            n == 0x1_0000_0000,
    ;
    crate::surface::lemma_product(direction, t, 0x2_0000_0000, 16 * k * n);
}

/// The extent of the box of a flat surface across the surface, which
/// lies at coordinate `q`: the padding alone.
pub open spec fn spec_flat_extent(q: Fixed) -> Interval {
    Interval { min: q, max: q }.spec_expand(Fixed { raw: crate::aabb::BOX_PADDING_RAW })
}

/// Whether the plane `normal · p = d` is the plane across axis `k` at
/// coordinate `q`: the normal is the unit vector along the axis, one way
/// or the other, and `d` is `q` with the sign of the normal.
pub open spec fn is_plane_across(normal: Vec3, d: Fixed, k: usize, q: Fixed) -> bool {
    &&& k < 3
    &&& forall|j: usize| j < 3 && j != k ==> (#[trigger] normal.spec_axis(j))@ == 0
    &&& (normal.spec_axis(k)@ == ONE_RAW && d@ == q@) || (normal.spec_axis(k)@ == -ONE_RAW && d@
        == -q@)
}

/// The ray meets a plane across an axis where its coordinate on that
/// axis reaches the plane: the parameter is the rounded quotient of the
/// distance to the plane by the speed toward it.
proof fn lemma_parameter_across(normal: Vec3, d: Fixed, k: usize, q: Fixed, r: Ray, w: Interval)
    requires
        is_plane_across(normal, d, k, q),
        is_moderate(q),
        is_moderate(r.origin.spec_axis(k)),
        is_moderate(r.direction.spec_axis(k)),
        crate::quad::spec_plane_parameter(normal, d, r, w) is Some,
    ensures
        r.direction.spec_axis(k)@ != 0,
        crate::quad::spec_plane_parameter(normal, d, r, w) matches Some(t) && (is_moderate(t)
            ==> t@ == trunc_div(
            (q@ - r.origin.spec_axis(k)@) * ONE_RAW,
            r.direction.spec_axis(k)@,
        )),
{
    let n = ONE_RAW as int;
    let o = r.origin.spec_axis(k);
    let dk = r.direction.spec_axis(k);
    assert(normal.spec_axis(0)@ == 0 || k == 0);
    assert(normal.spec_axis(1)@ == 0 || k == 1);
    assert(normal.spec_axis(2)@ == 0 || k == 2);
    assert(0 * r.direction.x@ == 0 && 0 * r.direction.y@ == 0 && 0 * r.direction.z@ == 0);
    assert(0 * r.origin.x@ == 0 && 0 * r.origin.y@ == 0 && 0 * r.origin.z@ == 0);
    let s = normal.spec_axis(k)@;
    assert(s * dk@ == dk@ * n || s * dk@ == (-dk@) * n) by (nonlinear_arith)
        requires
            s == n || s == -n,
    ;
    assert(s * o@ == o@ * n || s * o@ == (-o@) * n) by (nonlinear_arith)
        requires
            s == n || s == -n,
    ;
    crate::reflection::lemma_whole_multiple(dk@);
    crate::reflection::lemma_whole_multiple(-dk@);
    crate::reflection::lemma_whole_multiple(o@);
    crate::reflection::lemma_whole_multiple(-o@);
    let denom = crate::vec3::spec_dot(normal, r.direction);
    let along = crate::vec3::spec_dot(normal, r.origin);
    if s == n {
        assert(s * dk@ == dk@ * n) by (nonlinear_arith)
            requires
                s == n,
        ;
        assert(s * o@ == o@ * n) by (nonlinear_arith)
            requires
                s == n,
        ;
        assert(denom@ == dk@);
        assert(along@ == o@);
    } else {
        assert(s * dk@ == (-dk@) * n) by (nonlinear_arith)
            requires
                s == -n,
        ;
        assert(s * o@ == (-o@) * n) by (nonlinear_arith)
            requires
                s == -n,
        ;
        assert(denom@ == -dk@);
        assert(along@ == -o@);
        assert((-(q@ - o@)) * n == -((q@ - o@) * n)) by (nonlinear_arith);
        if dk@ > 0 {
            lemma_quotient_of_negatives(-((q@ - o@) * n), -dk@);
        } else if dk@ < 0 {
            lemma_quotient_of_negatives((q@ - o@) * n, dk@);
        }
    }
}

/// The flat extent at a coordinate reaches 214748 units in the last place
/// to either side of it, where that is within the range of the numbers.
proof fn lemma_flat_extent(q: Fixed)
    requires
        is_moderate(spec_flat_extent(q).min),
        is_moderate(spec_flat_extent(q).max),
    ensures
        spec_flat_extent(q).min@ == q@ - 214_748,
        spec_flat_extent(q).max@ == q@ + 214_748,
        is_moderate(q),
{
    let padding = Fixed { raw: crate::aabb::BOX_PADDING_RAW }.spec_div(Fixed::spec_from_int(2));
    assert(Fixed::spec_from_int(2)@ == 0x2_0000_0000);
    assert(429_497 * 0x1_0000_0000int / 0x2_0000_0000int == 214_748);
    assert(padding@ == 214_748);
}

/// The box of a flat surface holds, across the surface, the point at
/// which a ray meets the plane of the surface.
proof fn lemma_across_plane(q: Fixed, origin: Fixed, direction: Fixed, t: Fixed)
    requires
        is_moderate(spec_flat_extent(q).min),
        is_moderate(spec_flat_extent(q).max),
        is_moderate(origin),
        is_moderate(direction),
        is_moderate(t),
        direction@ != 0,
        t@ == trunc_div((q@ - origin@) * ONE_RAW, direction@),
    ensures
        axis_holds_point(spec_flat_extent(q), origin, direction, t),
{
    let n = ONE_RAW as int;
    let d = direction@;
    let l = q@ - origin@;
    lemma_flat_extent(q);
    let e = spec_flat_extent(q);
    lemma_product_within(d, t@, MODERATE_RAW as int, MODERATE_RAW as int);
    lemma_rounded(d * t@);
    assert(magnitude(rounded(d * t@)) * n <= 0x4000_0000_0000 * 0x4000_0000_0000);
    let x = direction.spec_mul(t)@;
    assert(x == rounded(d * t@));
    let p = origin.spec_add(direction.spec_mul(t));
    assert(p@ == origin@ + x);
    let size = magnitude(d);
    // the quotient is near: |d·t - l·n| < |d|
    if d > 0 {
        lemma_quotient_is_near(l * n, d);
    } else {
        lemma_quotient_of_negatives(l * n, d);
        lemma_quotient_is_near(-(l * n), -d);
        assert((-d) * t@ == -(d * t@)) by (nonlinear_arith);
    }
    assert(-size < l * n - d * t@ < size);
    vstd::arithmetic::div_mod::lemma_fundamental_div_mod(size, n);
    let m = size / n;
    assert(size < (m + 1) * n) by (nonlinear_arith)
        requires
            size == n * m + size % n,
            0 <= size % n < n,
    ;
    // |n·x - n·l| < |d| + n <= (m + 2)·n
    assert(n * (x - l) == n * x - l * n) by (nonlinear_arith);
    assert((m + 2) * n == (m + 1) * n + n) by (nonlinear_arith);
    assert(-((m + 2) * n) < n * (x - l) < (m + 2) * n);
    assert(-(m + 2) < x - l < m + 2) by (nonlinear_arith)
        requires
            -((m + 2) * n) < n * (x - l) < (m + 2) * n,
            n > 0,
    ;
    assert(m <= 0x4000) by {
        assert(size <= 0x4000 * n);
        vstd::arithmetic::div_mod::lemma_div_is_ordered(size, 0x4000 * n, n);
        vstd::arithmetic::div_mod::lemma_div_multiples_vanish(0x4000, n);
    }
    assert(spec_margin(direction) == m + 2);
    assert(p@ - q@ == x - l);
}

/// The box of a parallelogram in an axis plane never hides a hit across
/// the plane. For a parallelogram whose plane is the plane across axis `k`
/// and whose box has, on that axis, the padding alone: on that axis the
/// box holds the point of every hit by a moderate ray at a moderate
/// parameter, with the margin of the ray to spare.
pub proof fn lemma_flat_quad_is_held_across(
    quad: crate::quad::Quad,
    k: usize,
    r: Ray,
    w: Interval,
)
    requires
        is_plane_across(quad.normal, quad.d, k, quad.q.spec_axis(k)),
        is_moderate(spec_flat_extent(quad.q.spec_axis(k)).min),
        is_moderate(spec_flat_extent(quad.q.spec_axis(k)).max),
        is_moderate(r.origin.spec_axis(k)),
        is_moderate(r.direction.spec_axis(k)),
        quad.spec_hit(r, w) matches Some(rec) && is_moderate(rec.t),
    ensures
        quad.spec_hit(r, w) matches Some(rec) && axis_holds_point(
            spec_flat_extent(quad.q.spec_axis(k)),
            r.origin.spec_axis(k),
            r.direction.spec_axis(k),
            rec.t,
        ),
{
    reveal(crate::quad::Quad::spec_hit);
    let rec = quad.spec_hit(r, w)->Some_0;
    lemma_flat_extent(quad.q.spec_axis(k));
    lemma_parameter_across(quad.normal, quad.d, k, quad.q.spec_axis(k), r, w);
    lemma_across_plane(quad.q.spec_axis(k), r.origin.spec_axis(k), r.direction.spec_axis(k), rec.t);
}

/// The box of a triangle in an axis plane never hides a hit across the
/// plane: `lemma_flat_quad_is_held_across` for a triangle.
pub proof fn lemma_flat_triangle_is_held_across(
    triangle: crate::triangle::Triangle,
    k: usize,
    r: Ray,
    w: Interval,
)
    requires
        is_plane_across(triangle.normal, triangle.d, k, triangle.v0.spec_axis(k)),
        is_moderate(spec_flat_extent(triangle.v0.spec_axis(k)).min),
        is_moderate(spec_flat_extent(triangle.v0.spec_axis(k)).max),
        is_moderate(r.origin.spec_axis(k)),
        is_moderate(r.direction.spec_axis(k)),
        triangle.spec_hit(r, w) matches Some(rec) && is_moderate(rec.t),
    ensures
        triangle.spec_hit(r, w) matches Some(rec) && axis_holds_point(
            spec_flat_extent(triangle.v0.spec_axis(k)),
            r.origin.spec_axis(k),
            r.direction.spec_axis(k),
            rec.t,
        ),
{
    reveal(crate::triangle::Triangle::spec_hit);
    let rec = triangle.spec_hit(r, w)->Some_0;
    lemma_flat_extent(triangle.v0.spec_axis(k));
    lemma_parameter_across(triangle.normal, triangle.d, k, triangle.v0.spec_axis(k), r, w);
    lemma_across_plane(
        triangle.v0.spec_axis(k),
        r.origin.spec_axis(k),
        r.direction.spec_axis(k),
        rec.t,
    );
}

/// A product with a factor of zero is zero.
proof fn lemma_zero_factor(a: Fixed, b: Fixed)
    ensures
        a@ == 0 || b@ == 0 ==> a.spec_mul(b)@ == 0,
{
    if a@ == 0 || b@ == 0 {
        assert(a@ * b@ == 0) by (nonlinear_arith)
            requires
                a@ == 0 || b@ == 0,
        ;
    }
}

/// The unit vector along a vector that has one component alone: that
/// component becomes one, with its sign.
proof fn lemma_unit_along_axis(len: Fixed, c: Fixed)
    requires
        c@ != 0,
        -MAX_RAW <= c@ <= MAX_RAW,
        len@ == magnitude(c@),
    ensures
        Fixed::spec_zero().spec_div(len)@ == 0,
        c@ > 0 ==> c.spec_div(len)@ == ONE_RAW,
        c@ < 0 ==> c.spec_div(len)@ == -ONE_RAW,
{
    let n = ONE_RAW as int;
    let m = magnitude(c@);
    assert(0 * n == 0);
    vstd::arithmetic::div_mod::lemma_div_multiples_vanish(n, m);
    assert(n * m == m * n) by (nonlinear_arith);
    if c@ < 0 {
        assert(-(c@ * n) == m * n) by (nonlinear_arith)
            requires
                m == -c@,
        ;
        assert(c@ * n < 0) by (nonlinear_arith)
            requires
                c@ < 0,
                n > 0,
        ;
    } else {
        assert(c@ * n == m * n);
        assert(c@ * n >= 0) by (nonlinear_arith)
            requires
                c@ > 0,
                n > 0,
        ;
    }
}

/// The length of a vector that has one component alone is the magnitude
/// of that component.
proof fn lemma_length_along_axis(v: Vec3, c: Fixed)
    requires
        v.spec_raw_norm_squared() == c@ * c@,
        -MAX_RAW <= c@ <= MAX_RAW,
    ensures
        v.spec_length()@ == magnitude(c@),
{
    let m = magnitude(c@);
    assert(m * m == c@ * c@) by (nonlinear_arith)
        requires
            m == c@ || m == -c@,
    ;
    assert((m + 1) * (m + 1) > m * m) by (nonlinear_arith)
        requires
            m >= 0,
    ;
    crate::fixed::lemma_int_sqrt_is(c@ * c@, m);
}

/// A parallelogram in an axis plane has that plane for its plane and, on
/// the axis across it, a box of the padding alone. For edges without a
/// component along axis `k`, a corner of moderate size on that axis, and
/// an area that is not zero.
pub proof fn lemma_quad_in_axis_plane(
    q: crate::vec3::Point3,
    u: Vec3,
    v: Vec3,
    mat: std::sync::Arc<crate::material::Material>,
    k: usize,
)
    requires
        k < 3,
        u.spec_axis(k)@ == 0,
        v.spec_axis(k)@ == 0,
        is_moderate(q.spec_axis(k)),
        crate::vec3::spec_cross(u, v).spec_axis(k)@ != 0,
        crate::vec3::spec_cross(u, v).spec_axis(k).wf(),
    ensures
        ({
            let quad = crate::quad::Quad::spec_new(q, u, v, mat);
            &&& is_plane_across(quad.normal, quad.d, k, q.spec_axis(k))
            &&& quad.bbox.spec_axis_interval(k as i32) == spec_flat_extent(q.spec_axis(k))
        }),
{
    let n = crate::vec3::spec_cross(u, v);
    let c = n.spec_axis(k);
    let one = ONE_RAW as int;
    lemma_zero_factor(u.y, v.z);
    lemma_zero_factor(u.z, v.y);
    lemma_zero_factor(u.z, v.x);
    lemma_zero_factor(u.x, v.z);
    lemma_zero_factor(u.x, v.y);
    lemma_zero_factor(u.y, v.x);
    assert(forall|j: usize| j < 3 && j != k ==> (#[trigger] n.spec_axis(j))@ == 0);
    assert(n.spec_raw_norm_squared() == c@ * c@) by (nonlinear_arith)
        requires
            n.spec_raw_norm_squared() == n.x@ * n.x@ + n.y@ * n.y@ + n.z@ * n.z@,
            (c@ == n.x@ && n.y@ == 0 && n.z@ == 0) || (c@ == n.y@ && n.x@ == 0 && n.z@ == 0) || (c@
                == n.z@ && n.x@ == 0 && n.y@ == 0),
    ;
    lemma_length_along_axis(n, c);
    let len = n.spec_length();
    lemma_unit_along_axis(len, c);
    let quad = crate::quad::Quad::spec_new(q, u, v, mat);
    let normal = quad.normal;
    assert(normal == n.spec_div(len));
    assert(forall|j: usize| j < 3 && j != k ==> (#[trigger] normal.spec_axis(j))@ == 0);
    lemma_zero_factor(normal.x, q.x);
    lemma_zero_factor(normal.y, q.y);
    lemma_zero_factor(normal.z, q.z);
    let qk = q.spec_axis(k);
    crate::reflection::lemma_whole_multiple(qk@);
    crate::reflection::lemma_whole_multiple(-qk@);
    assert(one * qk@ == qk@ * one && (-one) * qk@ == (-qk@) * one) by (nonlinear_arith);
    assert(quad.d == crate::vec3::spec_dot(normal, q));
}

/// A triangle in an axis plane has that plane for its plane and, on the
/// axis across it, a box of the padding alone. For corners with one and
/// the same moderate coordinate on axis `k`, and an area that is not zero.
pub proof fn lemma_triangle_in_axis_plane(
    v0: crate::vec3::Point3,
    v1: crate::vec3::Point3,
    v2: crate::vec3::Point3,
    mat: std::sync::Arc<crate::material::Material>,
    k: usize,
)
    requires
        k < 3,
        v1.spec_axis(k) == v0.spec_axis(k),
        v2.spec_axis(k) == v0.spec_axis(k),
        is_moderate(v0.spec_axis(k)),
        crate::vec3::spec_cross(v1.spec_sub(v0), v2.spec_sub(v0)).spec_axis(k)@ != 0,
        crate::vec3::spec_cross(v1.spec_sub(v0), v2.spec_sub(v0)).spec_axis(k).wf(),
    ensures
        ({
            let triangle = crate::triangle::Triangle::spec_new(v0, v1, v2, mat);
            &&& is_plane_across(triangle.normal, triangle.d, k, v0.spec_axis(k))
            &&& triangle.bbox.spec_axis_interval(k as i32) == spec_flat_extent(v0.spec_axis(k))
        }),
{
    let u = v1.spec_sub(v0);
    let v = v2.spec_sub(v0);
    assert(u.spec_axis(k)@ == 0);
    assert(v.spec_axis(k)@ == 0);
    let n = crate::vec3::spec_cross(u, v);
    let c = n.spec_axis(k);
    let one = ONE_RAW as int;
    lemma_zero_factor(u.y, v.z);
    lemma_zero_factor(u.z, v.y);
    lemma_zero_factor(u.z, v.x);
    lemma_zero_factor(u.x, v.z);
    lemma_zero_factor(u.x, v.y);
    lemma_zero_factor(u.y, v.x);
    assert(forall|j: usize| j < 3 && j != k ==> (#[trigger] n.spec_axis(j))@ == 0);
    assert(n.spec_raw_norm_squared() == c@ * c@) by (nonlinear_arith)
        requires
            n.spec_raw_norm_squared() == n.x@ * n.x@ + n.y@ * n.y@ + n.z@ * n.z@,
            (c@ == n.x@ && n.y@ == 0 && n.z@ == 0) || (c@ == n.y@ && n.x@ == 0 && n.z@ == 0) || (c@
                == n.z@ && n.x@ == 0 && n.y@ == 0),
    ;
    lemma_length_along_axis(n, c);
    let len = n.spec_length();
    lemma_unit_along_axis(len, c);
    let triangle = crate::triangle::Triangle::spec_new(v0, v1, v2, mat);
    let normal = triangle.normal;
    assert(normal == n.spec_div(len));
    assert(forall|j: usize| j < 3 && j != k ==> (#[trigger] normal.spec_axis(j))@ == 0);
    lemma_zero_factor(normal.x, v0.x);
    lemma_zero_factor(normal.y, v0.y);
    lemma_zero_factor(normal.z, v0.z);
    let qk = v0.spec_axis(k);
    crate::reflection::lemma_whole_multiple(qk@);
    crate::reflection::lemma_whole_multiple(-qk@);
    assert(one * qk@ == qk@ * one && (-one) * qk@ == (-qk@) * one) by (nonlinear_arith);
    assert(triangle.d == crate::vec3::spec_dot(normal, v0));
}

/// Whether the box holds the point of `r` at parameter `t` on the two
/// axes other than `k`, with the margin of the ray to spare.
pub open spec fn box_holds_point_along(b: AABB, k: usize, r: Ray, t: Fixed) -> bool {
    forall|j: usize|
        j < 3 && j != k ==> axis_holds_point(
            #[trigger] b.spec_axis_interval(j as i32),
            r.origin.spec_axis(j),
            r.direction.spec_axis(j),
            t,
        )
}

/// A box that holds a point on axis `k` and on the two other axes holds
/// it.
proof fn lemma_three_axes_hold(b: AABB, k: usize, r: Ray, t: Fixed)
    requires
        k < 3,
        axis_holds_point(
            b.spec_axis_interval(k as i32),
            r.origin.spec_axis(k),
            r.direction.spec_axis(k),
            t,
        ),
        box_holds_point_along(b, k, r, t),
    ensures
        box_holds_point(b, r, t),
{
    let x: usize = 0;
    let y: usize = 1;
    let z: usize = 2;
    assert(b.spec_axis_interval(x as i32) == b.x);
    assert(b.spec_axis_interval(y as i32) == b.y);
    assert(b.spec_axis_interval(z as i32) == b.z);
    assert(axis_holds_point(
        b.spec_axis_interval(x as i32),
        r.origin.spec_axis(x),
        r.direction.spec_axis(x),
        t,
    ));
    assert(axis_holds_point(
        b.spec_axis_interval(y as i32),
        r.origin.spec_axis(y),
        r.direction.spec_axis(y),
        t,
    ));
    assert(axis_holds_point(
        b.spec_axis_interval(z as i32),
        r.origin.spec_axis(z),
        r.direction.spec_axis(z),
        t,
    ));
}

/// The box of a parallelogram in an axis plane shows a hit unless the hit
/// lies off its edges. For a parallelogram made with edges without a
/// component along axis `k`, a moderate ray, and a hit at a moderate
/// parameter whose point the box holds on the two axes of the plane with
/// the margin to spare: the parallelogram answers by its nearest hit, and
/// its box holds the point of the hit on all three axes.
pub proof fn lemma_flat_quad_is_held_by_its_box(
    q: crate::vec3::Point3,
    u: Vec3,
    v: Vec3,
    mat: std::sync::Arc<crate::material::Material>,
    k: usize,
    r: Ray,
    w: Interval,
)
    requires
        k < 3,
        u.spec_axis(k)@ == 0,
        v.spec_axis(k)@ == 0,
        crate::vec3::spec_cross(u, v).spec_axis(k)@ != 0,
        crate::vec3::spec_cross(u, v).spec_axis(k).wf(),
        is_moderate(spec_flat_extent(q.spec_axis(k)).min),
        is_moderate(spec_flat_extent(q.spec_axis(k)).max),
        is_moderate(r.origin.spec_axis(k)),
        is_moderate(r.direction.spec_axis(k)),
        is_proper_box(crate::quad::Quad::spec_new(q, u, v, mat).bbox),
        crate::quad::Quad::spec_new(q, u, v, mat).spec_hit(r, w) matches Some(rec) ==> is_moderate(
            rec.t,
        ) && box_holds_point_along(crate::quad::Quad::spec_new(q, u, v, mat).bbox, k, r, rec.t),
    ensures
        answers_by_nearest(Hittable::Quad(crate::quad::Quad::spec_new(q, u, v, mat)), r, w),
        hit_lies_in_box(Hittable::Quad(crate::quad::Quad::spec_new(q, u, v, mat)), r, w),
{
    let quad = crate::quad::Quad::spec_new(q, u, v, mat);
    let o = Hittable::Quad(quad);
    crate::nearest::lemma_quad_answers_by_nearest(quad, r, w);
    lemma_flat_extent(q.spec_axis(k));
    lemma_quad_in_axis_plane(q, u, v, mat, k);
    let b = quad.bbox;
    assert(o.spec_bounding_box() == b);
    if let Some(rec) = quad.spec_hit(r, w) {
        lemma_flat_quad_is_held_across(quad, k, r, w);
        let t = rec.t;
        assert(spec_hit_time(o, r, w) == Some(t));
        lemma_three_axes_hold(b, k, r, t);
    }
}

/// The box of a triangle in an axis plane shows a hit unless the hit lies
/// off its edges: `lemma_flat_quad_is_held_by_its_box` for a triangle.
pub proof fn lemma_flat_triangle_is_held_by_its_box(
    v0: crate::vec3::Point3,
    v1: crate::vec3::Point3,
    v2: crate::vec3::Point3,
    mat: std::sync::Arc<crate::material::Material>,
    k: usize,
    r: Ray,
    w: Interval,
)
    requires
        k < 3,
        v1.spec_axis(k) == v0.spec_axis(k),
        v2.spec_axis(k) == v0.spec_axis(k),
        crate::vec3::spec_cross(v1.spec_sub(v0), v2.spec_sub(v0)).spec_axis(k)@ != 0,
        crate::vec3::spec_cross(v1.spec_sub(v0), v2.spec_sub(v0)).spec_axis(k).wf(),
        is_moderate(spec_flat_extent(v0.spec_axis(k)).min),
        is_moderate(spec_flat_extent(v0.spec_axis(k)).max),
        is_moderate(r.origin.spec_axis(k)),
        is_moderate(r.direction.spec_axis(k)),
        is_proper_box(crate::triangle::Triangle::spec_new(v0, v1, v2, mat).bbox),
        crate::triangle::Triangle::spec_new(v0, v1, v2, mat).spec_hit(r, w) matches Some(rec)
            ==> is_moderate(rec.t) && box_holds_point_along(
            crate::triangle::Triangle::spec_new(v0, v1, v2, mat).bbox,
            k,
            r,
            rec.t,
        ),
    ensures
        answers_by_nearest(
            Hittable::Triangle(crate::triangle::Triangle::spec_new(v0, v1, v2, mat)),
            r,
            w,
        ),
        hit_lies_in_box(
            Hittable::Triangle(crate::triangle::Triangle::spec_new(v0, v1, v2, mat)),
            r,
            w,
        ),
{
    let triangle = crate::triangle::Triangle::spec_new(v0, v1, v2, mat);
    let o = Hittable::Triangle(triangle);
    crate::nearest::lemma_triangle_answers_by_nearest(triangle, r, w);
    lemma_flat_extent(v0.spec_axis(k));
    lemma_triangle_in_axis_plane(v0, v1, v2, mat, k);
    let b = triangle.bbox;
    assert(o.spec_bounding_box() == b);
    if let Some(rec) = triangle.spec_hit(r, w) {
        lemma_flat_triangle_is_held_across(triangle, k, r, w);
        let t = rec.t;
        assert(spec_hit_time(o, r, w) == Some(t));
        lemma_three_axes_hold(b, k, r, t);
    }
}

} // verus!
