//! Turning a point about the y axis and back.
//!
//! The sine and cosine of a turn are rounded, and so are the four products
//! of each turn. A point that is turned and turned back therefore does not
//! come back to the last place. This module bounds how far off it is.

use crate::aabb::AABB;
use crate::fixed::{Fixed, ONE_RAW};
use crate::hit_record::HitRecord;
use crate::hittable::Hittable;
use crate::norm::magnitude;
use crate::ray::Ray;
use crate::reflection::{differs_by_at_most, lemma_product_within, within};
use crate::surface::lemma_product;
use crate::transform::{spec_turn, spec_turn_back, RotateY};
use crate::vec3::Vec3;
use vstd::prelude::*;

verus! {

/// By how many units in the last place a coordinate of a point within
/// reach can differ after a turn there and back.
pub const TURN_TOLERANCE_RAW: i64 = 38;

/// Whether `s` and `c` are the sine and cosine of an angle to within
/// rounding: neither exceeds one in magnitude, and their squares add up to
/// one to within 8 units in the last place.
pub open spec fn is_nearly_on_circle(s: Fixed, c: Fixed) -> bool {
    &&& -ONE_RAW <= s@ <= ONE_RAW
    &&& -ONE_RAW <= c@ <= ONE_RAW
    &&& magnitude(s@ * s@ + c@ * c@ - ONE_RAW * ONE_RAW) <= 8 * ONE_RAW
}

/// `p·(p·x - q·z - g) + q·(q·x + p·z - k) = (p² + q²)·x - p·g - q·k`.
proof fn lemma_turns_cancel(p: int, q: int, x: int, z: int, g: int, k: int)
    by (nonlinear_arith)
    ensures
        p * (p * x - q * z - g) + q * (q * x + p * z - k) == (p * p + q * q) * x - p * g - q * k,
{
}

/// One coordinate after a turn there and back. `first` and `second` are
/// the coordinates after the first turn, each a sum of two rounded
/// products that is short of the exact sum by `g` and `k`; `last` is the
/// coordinate after the second turn, short by `f`.
proof fn lemma_coordinate_comes_back(
    p: int,
    q: int,
    x: int,
    z: int,
    first: int,
    second: int,
    last: int,
    n: int,
)
    requires
        n == ONE_RAW,
        -n <= p <= n,
        -n <= q <= n,
        -4 * n <= x <= 4 * n,
        magnitude(p * p + q * q - n * n) <= 8 * n,
        magnitude(p * x - q * z - n * first) <= 2 * n,
        magnitude(q * x + p * z - n * second) <= 2 * n,
        magnitude(p * first + q * second - n * last) <= 2 * n,
    ensures
        -38 <= last - x <= 38,
{
    let g = p * x - q * z - n * first;
    let k = q * x + p * z - n * second;
    let f = p * first + q * second - n * last;
    let e = p * p + q * q - n * n;
    lemma_turns_cancel(p, q, x, z, g, k);
    assert(p * (n * first) == n * (p * first)) by (nonlinear_arith);
    assert(q * (n * second) == n * (q * second)) by (nonlinear_arith);
    assert((p * p + q * q) * x == n * n * x + e * x) by (nonlinear_arith)
        requires
            e == p * p + q * q - n * n,
    ;
    assert(n * (n * last) == n * n * last) by (nonlinear_arith);
    assert(n * (n * last + f) == n * (n * last) + n * f) by (nonlinear_arith);
    assert(n * n * last - n * n * x == e * x - p * g - q * k - n * f);
    lemma_product_within(e, x, 8 * n, 4 * n);
    lemma_product_within(p, g, n, 2 * n);
    lemma_product_within(q, k, n, 2 * n);
    assert((8 * n) * (4 * n) == 32 * (n * n)) by (nonlinear_arith);
    assert(n * (2 * n) == 2 * (n * n)) by (nonlinear_arith);
    assert(n * n == 0x1_0000_0000_0000_0000) by (nonlinear_arith)
        requires
            n == 0x1_0000_0000,
    ;
    let nn = n * n;
    assert(nn * last - nn * x == nn * (last - x)) by (nonlinear_arith);
    assert(-(38 * nn) <= nn * (last - x) <= 38 * nn);
    assert(-38 <= last - x <= 38) by (nonlinear_arith)
        requires
            -(38 * nn) <= nn * (last - x) <= 38 * nn,
            nn > 0,
    ;
}

/// A point turned and turned back is nearly where it was. For a point
/// within 4 of the origin on each axis, and sine and cosine to within
/// rounding: whichever way the point is turned first, each coordinate
/// comes back to within 38 units in the last place.
pub proof fn lemma_turn_there_and_back(v: Vec3, s: Fixed, c: Fixed)
    requires
        within(v, 0x4_0000_0000),
        is_nearly_on_circle(s, c),
    ensures
        differs_by_at_most(
            spec_turn_back(spec_turn(v, s, c), s, c),
            v,
            TURN_TOLERANCE_RAW as int,
        ),
        differs_by_at_most(
            spec_turn(spec_turn_back(v, s, c), s, c),
            v,
            TURN_TOLERANCE_RAW as int,
        ),
{
    let n = ONE_RAW as int;
    let m = s.spec_neg();
    assert(m@ == -s@);
    assert(m@ * m@ == s@ * s@) by (nonlinear_arith)
        requires
            m@ == -s@,
    ;
    // there by `turn`, back by `turn_back`
    let there = spec_turn(v, s, c);
    lemma_product(c, v.x, n, 0x4_0000_0000);
    lemma_product(s, v.z, n, 0x4_0000_0000);
    lemma_product(m, v.x, n, 0x4_0000_0000);
    lemma_product(c, v.z, n, 0x4_0000_0000);
    assert(there.x@ == c.spec_mul(v.x)@ + s.spec_mul(v.z)@);
    assert(there.z@ == m.spec_mul(v.x)@ + c.spec_mul(v.z)@);
    let back = spec_turn_back(there, s, c);
    lemma_product(c, there.x, n, 0x8_0000_0000);
    lemma_product(s, there.z, n, 0x8_0000_0000);
    lemma_product(s, there.x, n, 0x8_0000_0000);
    lemma_product(c, there.z, n, 0x8_0000_0000);
    assert(back.x@ == c.spec_mul(there.x)@ - s.spec_mul(there.z)@);
    assert(back.z@ == s.spec_mul(there.x)@ + c.spec_mul(there.z)@);
    assert(m@ * v.z@ == -(s@ * v.z@)) by (nonlinear_arith)
        requires
            m@ == -s@,
    ;
    assert(m@ * v.x@ == -(s@ * v.x@)) by (nonlinear_arith)
        requires
            m@ == -s@,
    ;
    assert(m@ * there.z@ == -(s@ * there.z@)) by (nonlinear_arith)
        requires
            m@ == -s@,
    ;
    assert(m@ * there.x@ == -(s@ * there.x@)) by (nonlinear_arith)
        requires
            m@ == -s@,
    ;
    lemma_coordinate_comes_back(c@, m@, v.x@, v.z@, there.x@, there.z@, back.x@, n);
    lemma_coordinate_comes_back(c@, s@, v.z@, v.x@, there.z@, there.x@, back.z@, n);
    // there by `turn_back`, back by `turn`
    let away = spec_turn_back(v, s, c);
    lemma_product(s, v.x, n, 0x4_0000_0000);
    assert(away.x@ == c.spec_mul(v.x)@ - s.spec_mul(v.z)@);
    assert(away.z@ == s.spec_mul(v.x)@ + c.spec_mul(v.z)@);
    let home = spec_turn(away, s, c);
    lemma_product(c, away.x, n, 0x8_0000_0000);
    lemma_product(s, away.z, n, 0x8_0000_0000);
    lemma_product(m, away.x, n, 0x8_0000_0000);
    lemma_product(c, away.z, n, 0x8_0000_0000);
    assert(home.x@ == c.spec_mul(away.x)@ + s.spec_mul(away.z)@);
    assert(home.z@ == m.spec_mul(away.x)@ + c.spec_mul(away.z)@);
    assert(m@ * away.x@ == -(s@ * away.x@)) by (nonlinear_arith)
        requires
            m@ == -s@,
    ;
    lemma_coordinate_comes_back(c@, s@, v.x@, v.z@, away.x@, away.z@, home.x@, n);
    lemma_coordinate_comes_back(c@, m@, v.z@, v.x@, away.z@, away.x@, home.z@, n);
}

/// `o` turned about the y axis by the angle with sine `s` and cosine `c`,
/// with the box `bbox`.
pub open spec fn spec_turned(o: Hittable, s: Fixed, c: Fixed, bbox: AABB) -> RotateY {
    RotateY { object: Box::new(o), sin_theta: s, cos_theta: c, bbox }
}

/// Turning back by an angle is turning by the opposite angle.
proof fn lemma_opposite_turn(v: Vec3, s: Fixed, c: Fixed)
    requires
        s.wf(),
    ensures
        spec_turn_back(v, s.spec_neg(), c) == spec_turn(v, s, c),
        spec_turn(v, s.spec_neg(), c) == spec_turn_back(v, s, c),
{
    let m = s.spec_neg();
    assert(m@ == -s@);
    assert(m.spec_neg() == s);
    assert(m@ * v.x@ == -(s@ * v.x@)) by (nonlinear_arith)
        requires
            m@ == -s@,
    ;
    assert(m@ * v.z@ == -(s@ * v.z@)) by (nonlinear_arith)
        requires
            m@ == -s@,
    ;
    assert(m.spec_mul(v.x)@ == -s.spec_mul(v.x)@);
    assert(m.spec_mul(v.z)@ == -s.spec_mul(v.z)@);
}

/// An object turned by an angle and then by the opposite angle sees
/// nearly the ray that it sees unturned, and its hits come back nearly
/// where they were. For sine and cosine to within rounding, a ray whose
/// origin and direction lie within 4 of the origin on each axis, and a hit
/// whose point and normal do: origin and direction of the ray that the
/// object sees, and point and normal of the hit carried back, are within
/// 38 units in the last place of those of the ray and of the hit.
pub proof fn lemma_turned_there_and_back(
    o: Hittable,
    s: Fixed,
    c: Fixed,
    box_there: AABB,
    box_back: AABB,
    r: Ray,
    rec: HitRecord,
)
    requires
        is_nearly_on_circle(s, c),
        within(r.origin, 0x4_0000_0000),
        within(r.direction, 0x4_0000_0000),
        within(rec.p, 0x4_0000_0000),
        within(rec.normal, 0x4_0000_0000),
    ensures
        ({
            let there = spec_turned(o, s, c, box_there);
            let back = spec_turned(Hittable::RotateY(there), s.spec_neg(), c, box_back);
            let seen = there.spec_turned_ray(back.spec_turned_ray(r));
            let carried = back.spec_carry_back(there.spec_carry_back(rec));
            &&& differs_by_at_most(seen.origin, r.origin, TURN_TOLERANCE_RAW as int)
            &&& differs_by_at_most(seen.direction, r.direction, TURN_TOLERANCE_RAW as int)
            &&& seen.time == r.time
            &&& differs_by_at_most(carried.p, rec.p, TURN_TOLERANCE_RAW as int)
            &&& differs_by_at_most(carried.normal, rec.normal, TURN_TOLERANCE_RAW as int)
            &&& carried.t == rec.t
        }),
{
    lemma_opposite_turn(r.origin, s, c);
    lemma_opposite_turn(r.direction, s, c);
    lemma_opposite_turn(spec_turn(rec.p, s, c), s, c);
    lemma_opposite_turn(spec_turn(rec.normal, s, c), s, c);
    lemma_turn_there_and_back(r.origin, s, c);
    lemma_turn_there_and_back(r.direction, s, c);
    lemma_turn_there_and_back(rec.p, s, c);
    lemma_turn_there_and_back(rec.normal, s, c);
}

} // verus!
