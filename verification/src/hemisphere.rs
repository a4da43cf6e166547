//! The cosine density is positive wherever it draws.
//!
//! The basis around a direction is built with rounded products and
//! quotients, so its three axes are at right angles only to within a few
//! units in the last place. A drawn direction rises at least `2^-16` above
//! the plane of the other two axes, which is far more than the rounding
//! can take away.

use crate::fixed::{
    int_sqrt, lemma_int_sqrt_exists, trunc_div, Fixed, MAX_RAW, ONE_RAW, PI_RAW,
};
use crate::norm::{
    lemma_trunc_div_remainder, lemma_unit_vector_is_nearly_unit, magnitude,
};
use crate::hit_record::HitRecord;
use crate::material::{Material, ScatterRecord};
use crate::onb::{Onb, NEAR_X_AXIS_RAW};
use crate::pdf::{lemma_uniform_sphere_density_positive, CosinePdf};
use crate::ray::Ray;
use crate::reflection::{
    lemma_mul_is_rounded, lemma_product_within, lemma_rounded, lemma_whole_multiple, rounded,
    within,
};
use crate::vec3::{
    is_nearly_unit, spec_cosine_direction, spec_cross, spec_dot, spec_unit_vector, Vec3,
};
use vstd::prelude::*;

verus! {

/// The sum of the exact products of the raw components of two vectors.
pub open spec fn raw_dot(a: Vec3, b: Vec3) -> int {
    a.x@ * b.x@ + a.y@ * b.y@ + a.z@ * b.z@
}

/// The x axis and the y axis as they stand in the basis builder.
pub open spec fn spec_helper_axis(w: Vec3) -> Vec3 {
    if w.x.spec_abs()@ > NEAR_X_AXIS_RAW {
        Vec3 { x: Fixed::spec_zero(), y: Fixed::spec_one(), z: Fixed::spec_zero() }
    } else {
        Vec3 { x: Fixed::spec_one(), y: Fixed::spec_zero(), z: Fixed::spec_zero() }
    }
}

/// A product with one is the other factor, and a product with zero is zero.
proof fn lemma_mul_one_zero(x: Fixed)
    requires
        x.wf(),
    ensures
        x.spec_mul(Fixed::spec_one()) == x,
        x.spec_mul(Fixed::spec_zero()) == Fixed::spec_zero(),
{
    lemma_whole_multiple(x@);
    assert(x@ * 0 == 0) by (nonlinear_arith);
    assert(0int / (ONE_RAW as int) == 0);
}

/// The cross product of a vector with the helper axis has a zero
/// component, and its other two are components of the vector, one of them
/// with its sign changed: it is at right angles to the vector exactly.
proof fn lemma_cross_with_axis(w: Vec3)
    requires
        w.wf(),
    ensures
        spec_cross(w, spec_helper_axis(w)) == if w.x.spec_abs()@ > NEAR_X_AXIS_RAW {
            Vec3 { x: w.z.spec_neg(), y: Fixed::spec_zero(), z: w.x }
        } else {
            Vec3 { x: Fixed::spec_zero(), y: w.z, z: w.y.spec_neg() }
        },
{
    lemma_mul_one_zero(w.x);
    lemma_mul_one_zero(w.y);
    lemma_mul_one_zero(w.z);
}

/// The cross product of a nearly unit vector with the helper axis is long
/// enough to be normalised accurately, and at right angles to the vector.
proof fn lemma_cross_with_axis_is_long(w: Vec3)
    requires
        is_nearly_unit(w),
    ensures
        ONE_RAW / 16 <= int_sqrt(spec_cross(w, spec_helper_axis(w)).spec_raw_norm_squared())
            <= MAX_RAW,
        raw_dot(spec_cross(w, spec_helper_axis(w)), w) == 0,
        within(spec_cross(w, spec_helper_axis(w)), 0x1_0000_0010),
        within(w, 0x1_0000_0010),
{
    let n = ONE_RAW as int;
    lemma_components_of_nearly_unit(w);
    lemma_cross_with_axis(w);
    let c = spec_cross(w, spec_helper_axis(w));
    let s = c.spec_raw_norm_squared();
    let x2 = w.x@ * w.x@;
    let y2 = w.y@ * w.y@;
    let z2 = w.z@ * w.z@;
    assert(x2 >= 0 && y2 >= 0 && z2 >= 0) by (nonlinear_arith)
        requires
            x2 == w.x@ * w.x@,
            y2 == w.y@ * w.y@,
            z2 == w.z@ * w.z@,
    ;
    assert((-w.y@) * (-w.y@) == y2 && (-w.z@) * (-w.z@) == z2 && 0int * 0int == 0)
        by (nonlinear_arith)
        requires
            y2 == w.y@ * w.y@,
            z2 == w.z@ * w.z@,
    ;
    if w.x.spec_abs()@ > NEAR_X_AXIS_RAW {
        assert(s == z2 + x2);
        assert(x2 >= 3_865_470_566 * 3_865_470_566) by (nonlinear_arith)
            requires
                x2 == w.x@ * w.x@,
                w.x@ > 3_865_470_566 || w.x@ < -3_865_470_566,
        ;
        assert(raw_dot(c, w) == 0) by (nonlinear_arith)
            requires
                raw_dot(c, w) == (-w.z@) * w.x@ + 0 * w.y@ + w.x@ * w.z@,
        ;
    } else {
        assert(s == y2 + z2);
        assert(x2 <= 3_865_470_566 * 3_865_470_566) by (nonlinear_arith)
            requires
                x2 == w.x@ * w.x@,
                -3_865_470_566 <= w.x@ <= 3_865_470_566,
        ;
        assert(raw_dot(c, w) == 0) by (nonlinear_arith)
            requires
                raw_dot(c, w) == 0 * w.x@ + w.z@ * w.y@ + (-w.y@) * w.z@,
        ;
    }
    assert(0x1000_0000int * 0x1000_0000 <= s <= 0x1_0000_0000_0000_0000 + 33 * 0x1_0000_0000);
    lemma_int_sqrt_exists(s);
    let l = int_sqrt(s);
    if l < 0x1000_0000 {
        assert((l + 1) * (l + 1) <= 0x1000_0000 * 0x1000_0000) by (nonlinear_arith)
            requires
                0 <= l < 0x1000_0000,
        ;
    }
    if l >= 0x2_0000_0000 {
        assert(l * l >= 0x2_0000_0000int * 0x2_0000_0000) by (nonlinear_arith)
            requires
                l >= 0x2_0000_0000,
        ;
    }
}

/// Each component of a nearly unit vector is at most `2^32 + 16` in
/// magnitude.
proof fn lemma_components_of_nearly_unit(w: Vec3)
    requires
        is_nearly_unit(w),
    ensures
        within(w, 0x1_0000_0010),
        w.wf(),
{
    lemma_component_bound(w.x@, w.y@, w.z@);
    lemma_component_bound(w.y@, w.z@, w.x@);
    lemma_component_bound(w.z@, w.x@, w.y@);
}

proof fn lemma_component_bound(a: int, b: int, c: int)
    by (nonlinear_arith)
    requires
        a * a + b * b + c * c <= 0x1_0000_0000_0000_0000 + 33 * 0x1_0000_0000,
    ensures
        -0x1_0000_0010 <= a <= 0x1_0000_0010,
{
}

/// A quotient rounded toward zero, times the divisor, differs from the
/// dividend by less than the divisor.
proof fn lemma_quotient_shortfall(a: int, d: int)
    requires
        d > 0,
    ensures
        -d < a - d * trunc_div(a, d) < d,
        magnitude(trunc_div(a, d)) * d <= magnitude(a),
{
    lemma_trunc_div_remainder(a, d);
    let q = trunc_div(a, d);
    let m = magnitude(q);
    if a >= 0 {
        vstd::arithmetic::div_mod::lemma_div_pos_is_pos(a, d);
        assert(d * q == m * d) by (nonlinear_arith)
            requires
                m == q,
        ;
    } else {
        vstd::arithmetic::div_mod::lemma_div_pos_is_pos(-a, d);
        assert(d * q == -(m * d)) by (nonlinear_arith)
            requires
                m == -q,
        ;
    }
}

/// `(a + b + c)·k = a·k + b·k + c·k`, and the same with the factor in
/// front.
proof fn lemma_spread(a: int, b: int, c: int, k: int)
    by (nonlinear_arith)
    ensures
        (a + b + c) * k == a * k + b * k + c * k,
        k * (a + b + c) == k * a + k * b + k * c,
{
}

/// `k·(a·b) = (k·a)·b`.
proof fn lemma_pull_in(k: int, a: int, b: int)
    by (nonlinear_arith)
    ensures
        k * (a * b) == (k * a) * b,
{
}

/// `(a - b)·c = a·c - b·c`.
proof fn lemma_spread_difference(a: int, b: int, c: int)
    by (nonlinear_arith)
    ensures
        (a - b) * c == a * c - b * c,
{
}

/// `(a·n)·b = n·(a·b)`.
proof fn lemma_pull_out(a: int, n: int, b: int)
    by (nonlinear_arith)
    ensures
        (a * n) * b == n * (a * b),
{
}

/// A number whose multiple by a positive number is small is small.
proof fn lemma_cancel(k: int, x: int, bound: int)
    by (nonlinear_arith)
    requires
        k > 0,
        -(k * bound) <= k * x <= k * bound,
    ensures
        -bound <= x <= bound,
{
}

/// The direction of a vector that is at right angles to `w` is nearly at
/// right angles to `w`: the sum of the products of their raw components is
/// at most three times the greatest component of `w` in magnitude.
proof fn lemma_direction_stays_across(c: Vec3, w: Vec3)
    requires
        raw_dot(c, w) == 0,
        ONE_RAW / 16 <= int_sqrt(c.spec_raw_norm_squared()) <= MAX_RAW,
        within(w, 0x1_0000_0010),
    ensures
        -(3 * 0x1_0000_0010) <= raw_dot(spec_unit_vector(c), w) <= 3 * 0x1_0000_0010,
        within(spec_unit_vector(c), 0x1_0000_0000),
        is_nearly_unit(spec_unit_vector(c)),
{
    let n = ONE_RAW as int;
    let nb = 0x1_0000_0010int;
    let s = c.spec_raw_norm_squared();
    assert(s >= 0) by (nonlinear_arith)
        requires
            s == c.x@ * c.x@ + c.y@ * c.y@ + c.z@ * c.z@,
    ;
    lemma_int_sqrt_exists(s);
    let l = int_sqrt(s);
    lemma_unit_vector_is_nearly_unit(c);
    let v = spec_unit_vector(c);
    crate::norm::lemma_unit_vector_components(c);
    assert(v.x@ == trunc_div(c.x@ * n, l));
    assert(v.y@ == trunc_div(c.y@ * n, l));
    assert(v.z@ == trunc_div(c.z@ * n, l));
    lemma_quotient_shortfall(c.x@ * n, l);
    lemma_quotient_shortfall(c.y@ * n, l);
    lemma_quotient_shortfall(c.z@ * n, l);
    let k1 = c.x@ * n - l * v.x@;
    let k2 = c.y@ * n - l * v.y@;
    let k3 = c.z@ * n - l * v.z@;
    // l·(v·w) = n·(c·w) - (k·w), and c·w = 0.
    lemma_spread(v.x@ * w.x@, v.y@ * w.y@, v.z@ * w.z@, l);
    lemma_pull_in(l, v.x@, w.x@);
    lemma_pull_in(l, v.y@, w.y@);
    lemma_pull_in(l, v.z@, w.z@);
    lemma_spread_difference(c.x@ * n, k1, w.x@);
    lemma_spread_difference(c.y@ * n, k2, w.y@);
    lemma_spread_difference(c.z@ * n, k3, w.z@);
    lemma_pull_out(c.x@, n, w.x@);
    lemma_pull_out(c.y@, n, w.y@);
    lemma_pull_out(c.z@, n, w.z@);
    lemma_spread(c.x@ * w.x@, c.y@ * w.y@, c.z@ * w.z@, n);
    let kw = k1 * w.x@ + k2 * w.y@ + k3 * w.z@;
    assert(l * raw_dot(v, w) == n * raw_dot(c, w) - kw);
    assert(n * raw_dot(c, w) == 0) by (nonlinear_arith)
        requires
            raw_dot(c, w) == 0,
    ;
    lemma_product_within(k1, w.x@, l, nb);
    lemma_product_within(k2, w.y@, l, nb);
    lemma_product_within(k3, w.z@, l, nb);
    assert(l * (3 * nb) == 3 * (l * nb)) by (nonlinear_arith);
    lemma_cancel(l, raw_dot(v, w), 3 * nb);
}

/// The third axis of the basis: the cross product of two moderate vectors,
/// the first of which is `w`, is nearly at right angles to `w`.
proof fn lemma_cross_stays_across(w: Vec3, v: Vec3)
    requires
        within(w, 0x1_0000_0010),
        within(v, 0x1_0000_0000),
    ensures
        -(6 * 0x1_0000_0010) <= raw_dot(spec_cross(w, v), w) <= 6 * 0x1_0000_0010,
        within(spec_cross(w, v), 0x2_0000_0020),
{
    let n = ONE_RAW as int;
    let nb = 0x1_0000_0010int;
    let u = spec_cross(w, v);
    lemma_mul_is_rounded(w.y, v.z, nb, n);
    lemma_mul_is_rounded(w.z, v.y, nb, n);
    lemma_mul_is_rounded(w.z, v.x, nb, n);
    lemma_mul_is_rounded(w.x, v.z, nb, n);
    lemma_mul_is_rounded(w.x, v.y, nb, n);
    lemma_mul_is_rounded(w.y, v.x, nb, n);
    let a1 = w.y@ * v.z@;
    let b1 = w.z@ * v.y@;
    let a2 = w.z@ * v.x@;
    let b2 = w.x@ * v.z@;
    let a3 = w.x@ * v.y@;
    let b3 = w.y@ * v.x@;
    lemma_rounded(a1);
    lemma_rounded(b1);
    lemma_rounded(a2);
    lemma_rounded(b2);
    lemma_rounded(a3);
    lemma_rounded(b3);
    lemma_small_product(w.y.spec_mul(v.z)@, nb, n);
    lemma_small_product(w.z.spec_mul(v.y)@, nb, n);
    lemma_small_product(w.z.spec_mul(v.x)@, nb, n);
    lemma_small_product(w.x.spec_mul(v.z)@, nb, n);
    lemma_small_product(w.x.spec_mul(v.y)@, nb, n);
    lemma_small_product(w.y.spec_mul(v.x)@, nb, n);
    assert(u.x@ == rounded(a1) - rounded(b1));
    assert(u.y@ == rounded(a2) - rounded(b2));
    assert(u.z@ == rounded(a3) - rounded(b3));
    let t1 = (a1 - b1) - n * u.x@;
    let t2 = (a2 - b2) - n * u.y@;
    let t3 = (a3 - b3) - n * u.z@;
    assert(n * u.x@ == n * rounded(a1) - n * rounded(b1)) by (nonlinear_arith)
        requires
            u.x@ == rounded(a1) - rounded(b1),
    ;
    assert(n * u.y@ == n * rounded(a2) - n * rounded(b2)) by (nonlinear_arith)
        requires
            u.y@ == rounded(a2) - rounded(b2),
    ;
    assert(n * u.z@ == n * rounded(a3) - n * rounded(b3)) by (nonlinear_arith)
        requires
            u.z@ == rounded(a3) - rounded(b3),
    ;
    assert(-2 * n < t1 < 2 * n && -2 * n < t2 < 2 * n && -2 * n < t3 < 2 * n);
    // n·(u·w) = (w × v)·w - (t·w), and (w × v)·w = 0.
    lemma_spread(u.x@ * w.x@, u.y@ * w.y@, u.z@ * w.z@, n);
    lemma_pull_in(n, u.x@, w.x@);
    lemma_pull_in(n, u.y@, w.y@);
    lemma_pull_in(n, u.z@, w.z@);
    lemma_spread_difference(a1 - b1, t1, w.x@);
    lemma_spread_difference(a2 - b2, t2, w.y@);
    lemma_spread_difference(a3 - b3, t3, w.z@);
    lemma_triple_product(w.x@, w.y@, w.z@, v.x@, v.y@, v.z@);
    let tw = t1 * w.x@ + t2 * w.y@ + t3 * w.z@;
    assert(n * raw_dot(u, w) == -tw);
    lemma_product_within(t1, w.x@, 2 * n, nb);
    lemma_product_within(t2, w.y@, 2 * n, nb);
    lemma_product_within(t3, w.z@, 2 * n, nb);
    assert(3 * ((2 * n) * nb) == n * (6 * nb)) by (nonlinear_arith);
    lemma_cancel(n, raw_dot(u, w), 6 * nb);
}

/// A rounded product whose magnitude times one is at most `a·b` is at
/// most `a` where `b` is one.
proof fn lemma_small_product(m: int, a: int, b: int)
    by (nonlinear_arith)
    requires
        magnitude(m) * b <= a * b,
        b > 0,
    ensures
        -a <= m <= a,
{
}

/// A vector is at right angles to its cross product with any other.
proof fn lemma_triple_product(wx: int, wy: int, wz: int, vx: int, vy: int, vz: int)
    by (nonlinear_arith)
    ensures
        (wy * vz - wz * vy) * wx + (wz * vx - wx * vz) * wy + (wx * vy - wy * vx) * wz == 0,
{
}

/// The square root of a number of `[0, 1]` lies in `[0, 1]`, and that of
/// a positive one is at least `2^-16`.
proof fn lemma_sqrt_of_fraction(a: Fixed)
    requires
        0 <= a@ <= ONE_RAW,
    ensures
        0 <= a.spec_sqrt()@ <= ONE_RAW,
        a@ >= 1 ==> a.spec_sqrt()@ >= 0x1_0000,
{
    let n = ONE_RAW as int;
    if a@ >= 1 {
        let p = a@ * n;
        assert(0x1_0000int * 0x1_0000 <= p <= n * n) by (nonlinear_arith)
            requires
                p == a@ * n,
                1 <= a@ <= n,
                n == 0x1_0000_0000,
        ;
        lemma_int_sqrt_exists(p);
        let r = int_sqrt(p);
        if r > n {
            assert(r * r > n * n) by (nonlinear_arith)
                requires
                    r > n,
                    n > 0,
            ;
        }
        if r < 0x1_0000 {
            assert((r + 1) * (r + 1) <= 0x1_0000int * 0x1_0000) by (nonlinear_arith)
                requires
                    0 <= r < 0x1_0000,
            ;
        }
    }
}

/// Sine and cosine lie in `[-1, 1]`.
proof fn lemma_sin_cos_within(angle: Fixed)
    ensures
        -(ONE_RAW as int) <= crate::trig::spec_sin_cos(angle).0@ <= ONE_RAW,
        -(ONE_RAW as int) <= crate::trig::spec_sin_cos(angle).1@ <= ONE_RAW,
{
}

/// A direction drawn by the cosine law around the z axis has components
/// of at most one and rises at least `2^-16` along the axis.
proof fn lemma_cosine_direction_rises(r1: Fixed, r2: Fixed)
    requires
        0 <= r2@ < ONE_RAW,
    ensures
        within(spec_cosine_direction(r1, r2), 0x1_0000_0000),
        spec_cosine_direction(r1, r2).z@ >= 0x1_0000,
{
    let n = ONE_RAW as int;
    let phi = Fixed { raw: crate::trig::TWO_PI_RAW }.spec_mul(r1);
    let sc = crate::trig::spec_sin_cos(phi);
    lemma_sin_cos_within(phi);
    lemma_sqrt_of_fraction(r2);
    lemma_sqrt_of_fraction(Fixed::spec_one().spec_sub(r2));
    let root = r2.spec_sqrt();
    lemma_mul_is_rounded(sc.1, root, n, n);
    lemma_mul_is_rounded(sc.0, root, n, n);
    lemma_small_product(sc.1.spec_mul(root)@, n, n);
    lemma_small_product(sc.0.spec_mul(root)@, n, n);
}

/// `a·(x·b) = x·(a·b)`.
proof fn lemma_swap_factor(a: int, x: int, b: int)
    by (nonlinear_arith)
    ensures
        (a * x) * b == x * (a * b),
{
}

/// A drawn direction carried into a basis whose first two axes are nearly
/// at right angles to the third rises along the third: the sum of the
/// products of its raw components with those of the third axis is at
/// least `65517·2^32`.
proof fn lemma_drawn_direction_rises(u: Vec3, v: Vec3, w: Vec3, d: Vec3)
    requires
        within(u, 0x2_0000_0020),
        within(v, 0x1_0000_0000),
        within(w, 0x1_0000_0010),
        is_nearly_unit(w),
        -(6 * 0x1_0000_0010) <= raw_dot(u, w) <= 6 * 0x1_0000_0010,
        -(3 * 0x1_0000_0010) <= raw_dot(v, w) <= 3 * 0x1_0000_0010,
        within(d, 0x1_0000_0000),
        d.z@ >= 0x1_0000,
    ensures
        raw_dot((Onb { u, v, w }).spec_transform(d), w) >= 65517 * 0x1_0000_0000,
        within((Onb { u, v, w }).spec_transform(d), 0x5_0000_0000),
{
    let n = ONE_RAW as int;
    let nb = 0x1_0000_0010int;
    let dir = (Onb { u, v, w }).spec_transform(d);
    // Each component of the direction, spelt out.
    lemma_mul_is_rounded(u.x, d.x, 0x2_0000_0020, n);
    lemma_mul_is_rounded(u.y, d.x, 0x2_0000_0020, n);
    lemma_mul_is_rounded(u.z, d.x, 0x2_0000_0020, n);
    lemma_mul_is_rounded(v.x, d.y, n, n);
    lemma_mul_is_rounded(v.y, d.y, n, n);
    lemma_mul_is_rounded(v.z, d.y, n, n);
    lemma_mul_is_rounded(w.x, d.z, nb, n);
    lemma_mul_is_rounded(w.y, d.z, nb, n);
    lemma_mul_is_rounded(w.z, d.z, nb, n);
    lemma_small_product(u.x.spec_mul(d.x)@, 0x2_0000_0020, n);
    lemma_small_product(u.y.spec_mul(d.x)@, 0x2_0000_0020, n);
    lemma_small_product(u.z.spec_mul(d.x)@, 0x2_0000_0020, n);
    lemma_small_product(v.x.spec_mul(d.y)@, n, n);
    lemma_small_product(v.y.spec_mul(d.y)@, n, n);
    lemma_small_product(v.z.spec_mul(d.y)@, n, n);
    lemma_small_product(w.x.spec_mul(d.z)@, nb, n);
    lemma_small_product(w.y.spec_mul(d.z)@, nb, n);
    lemma_small_product(w.z.spec_mul(d.z)@, nb, n);
    let ux = u.x@ * d.x@;
    let uy = u.y@ * d.x@;
    let uz = u.z@ * d.x@;
    let vx = v.x@ * d.y@;
    let vy = v.y@ * d.y@;
    let vz = v.z@ * d.y@;
    let wx = w.x@ * d.z@;
    let wy = w.y@ * d.z@;
    let wz = w.z@ * d.z@;
    lemma_rounded(ux);
    lemma_rounded(uy);
    lemma_rounded(uz);
    lemma_rounded(vx);
    lemma_rounded(vy);
    lemma_rounded(vz);
    lemma_rounded(wx);
    lemma_rounded(wy);
    lemma_rounded(wz);
    assert(dir.x@ == rounded(ux) + rounded(vx) + rounded(wx));
    assert(dir.y@ == rounded(uy) + rounded(vy) + rounded(wy));
    assert(dir.z@ == rounded(uz) + rounded(vz) + rounded(wz));
    lemma_spread(rounded(ux), rounded(vx), rounded(wx), n);
    lemma_spread(rounded(uy), rounded(vy), rounded(wy), n);
    lemma_spread(rounded(uz), rounded(vz), rounded(wz), n);
    let e1 = ux + vx + wx - n * dir.x@;
    let e2 = uy + vy + wy - n * dir.y@;
    let e3 = uz + vz + wz - n * dir.z@;
    assert(-3 * n < e1 < 3 * n && -3 * n < e2 < 3 * n && -3 * n < e3 < 3 * n);
    // n·(dir·w) = d.x·(u·w) + d.y·(v·w) + d.z·(w·w) - (e·w).
    lemma_spread(dir.x@ * w.x@, dir.y@ * w.y@, dir.z@ * w.z@, n);
    lemma_pull_in(n, dir.x@, w.x@);
    lemma_pull_in(n, dir.y@, w.y@);
    lemma_pull_in(n, dir.z@, w.z@);
    lemma_spread_difference(ux + vx + wx, e1, w.x@);
    lemma_spread_difference(uy + vy + wy, e2, w.y@);
    lemma_spread_difference(uz + vz + wz, e3, w.z@);
    lemma_spread(ux, vx, wx, w.x@);
    lemma_spread(uy, vy, wy, w.y@);
    lemma_spread(uz, vz, wz, w.z@);
    lemma_swap_factor(u.x@, d.x@, w.x@);
    lemma_swap_factor(u.y@, d.x@, w.y@);
    lemma_swap_factor(u.z@, d.x@, w.z@);
    lemma_swap_factor(v.x@, d.y@, w.x@);
    lemma_swap_factor(v.y@, d.y@, w.y@);
    lemma_swap_factor(v.z@, d.y@, w.z@);
    lemma_swap_factor(w.x@, d.z@, w.x@);
    lemma_swap_factor(w.y@, d.z@, w.y@);
    lemma_swap_factor(w.z@, d.z@, w.z@);
    lemma_spread(u.x@ * w.x@, u.y@ * w.y@, u.z@ * w.z@, d.x@);
    lemma_spread(v.x@ * w.x@, v.y@ * w.y@, v.z@ * w.z@, d.y@);
    lemma_spread(w.x@ * w.x@, w.y@ * w.y@, w.z@ * w.z@, d.z@);
    let ew = e1 * w.x@ + e2 * w.y@ + e3 * w.z@;
    let big_q = w.spec_raw_norm_squared();
    assert(raw_dot(w, w) == big_q);
    assert(n * raw_dot(dir, w) == d.x@ * raw_dot(u, w) + d.y@ * raw_dot(v, w) + d.z@ * big_q - ew);
    lemma_product_within(d.x@, raw_dot(u, w), n, 6 * nb);
    lemma_product_within(d.y@, raw_dot(v, w), n, 3 * nb);
    lemma_product_within(e1, w.x@, 3 * n, nb);
    lemma_product_within(e2, w.y@, 3 * n, nb);
    lemma_product_within(e3, w.z@, 3 * n, nb);
    assert(d.z@ * big_q >= 0x1_0000 * (0x1_0000_0000_0000_0000 - 6 * 0x1_0000_0000))
        by (nonlinear_arith)
        requires
            d.z@ >= 0x1_0000,
            big_q >= 0x1_0000_0000_0000_0000 - 6 * 0x1_0000_0000,
    ;
    assert(n * raw_dot(dir, w) >= n * (65517 * 0x1_0000_0000)) by (nonlinear_arith)
        requires
            n * raw_dot(dir, w) == d.x@ * raw_dot(u, w) + d.y@ * raw_dot(v, w) + d.z@ * big_q
                - ew,
            -(n * (6 * nb)) <= d.x@ * raw_dot(u, w),
            -(n * (3 * nb)) <= d.y@ * raw_dot(v, w),
            d.z@ * big_q >= 0x1_0000 * (0x1_0000_0000_0000_0000 - 6 * 0x1_0000_0000),
            ew <= 3 * ((3 * n) * nb),
            n == 0x1_0000_0000,
            nb == 0x1_0000_0010,
    ;
    assert(raw_dot(dir, w) >= 65517 * 0x1_0000_0000) by (nonlinear_arith)
        requires
            n * raw_dot(dir, w) >= n * (65517 * 0x1_0000_0000),
            n > 0,
    ;
}

/// A direction that rises along the axis of the hemisphere has positive
/// density.
proof fn lemma_rising_direction_has_density(pdf: CosinePdf, dir: Vec3)
    requires
        within(dir, 0x5_0000_0000),
        within(pdf.uvw.w, 0x1_0000_0010),
        raw_dot(dir, pdf.uvw.w) >= 65517 * 0x1_0000_0000,
    ensures
        pdf.spec_value(dir)@ > 0,
{
    let n = ONE_RAW as int;
    let nb = 0x1_0000_0010int;
    let w = pdf.uvw.w;
    let s = dir.spec_raw_norm_squared();
    let x2 = dir.x@ * dir.x@;
    let y2 = dir.y@ * dir.y@;
    let z2 = dir.z@ * dir.z@;
    assert(0 <= x2 <= 0x5_0000_0000int * 0x5_0000_0000 && 0 <= y2 <= 0x5_0000_0000int
        * 0x5_0000_0000 && 0 <= z2 <= 0x5_0000_0000int * 0x5_0000_0000) by (nonlinear_arith)
        requires
            x2 == dir.x@ * dir.x@,
            y2 == dir.y@ * dir.y@,
            z2 == dir.z@ * dir.z@,
            -0x5_0000_0000 <= dir.x@ <= 0x5_0000_0000,
            -0x5_0000_0000 <= dir.y@ <= 0x5_0000_0000,
            -0x5_0000_0000 <= dir.z@ <= 0x5_0000_0000,
    ;
    if dir.x@ == 0 && dir.y@ == 0 && dir.z@ == 0 {
        assert(raw_dot(dir, w) == 0) by (nonlinear_arith)
            requires
                raw_dot(dir, w) == dir.x@ * w.x@ + dir.y@ * w.y@ + dir.z@ * w.z@,
                dir.x@ == 0,
                dir.y@ == 0,
                dir.z@ == 0,
        ;
    }
    assert(s >= 1) by (nonlinear_arith)
        requires
            s == dir.x@ * dir.x@ + dir.y@ * dir.y@ + dir.z@ * dir.z@,
            dir.x@ != 0 || dir.y@ != 0 || dir.z@ != 0,
    ;
    lemma_int_sqrt_exists(s);
    let l = int_sqrt(s);
    if l >= 0x9_0000_0000 {
        assert(l * l >= 0x9_0000_0000int * 0x9_0000_0000) by (nonlinear_arith)
            requires
                l >= 0x9_0000_0000,
        ;
        assert(3 * (0x5_0000_0000int * 0x5_0000_0000) < 0x9_0000_0000int * 0x9_0000_0000)
            by (nonlinear_arith);
    }
    assert(1 <= l < 0x9_0000_0000);
    crate::norm::lemma_unit_vector_components(dir);
    let ud = spec_unit_vector(dir);
    lemma_quotient_shortfall(dir.x@ * n, l);
    lemma_quotient_shortfall(dir.y@ * n, l);
    lemma_quotient_shortfall(dir.z@ * n, l);
    let k1 = dir.x@ * n - l * ud.x@;
    let k2 = dir.y@ * n - l * ud.y@;
    let k3 = dir.z@ * n - l * ud.z@;
    // l·(ud·w) = n·(dir·w) - (k·w).
    lemma_spread(ud.x@ * w.x@, ud.y@ * w.y@, ud.z@ * w.z@, l);
    lemma_pull_in(l, ud.x@, w.x@);
    lemma_pull_in(l, ud.y@, w.y@);
    lemma_pull_in(l, ud.z@, w.z@);
    lemma_spread_difference(dir.x@ * n, k1, w.x@);
    lemma_spread_difference(dir.y@ * n, k2, w.y@);
    lemma_spread_difference(dir.z@ * n, k3, w.z@);
    lemma_pull_out(dir.x@, n, w.x@);
    lemma_pull_out(dir.y@, n, w.y@);
    lemma_pull_out(dir.z@, n, w.z@);
    lemma_spread(dir.x@ * w.x@, dir.y@ * w.y@, dir.z@ * w.z@, n);
    let kw = k1 * w.x@ + k2 * w.y@ + k3 * w.z@;
    assert(l * raw_dot(ud, w) == n * raw_dot(dir, w) - kw);
    lemma_product_within(k1, w.x@, l, nb);
    lemma_product_within(k2, w.y@, l, nb);
    lemma_product_within(k3, w.z@, l, nb);
    let rise = raw_dot(ud, w);
    assert(rise >= 7000 * 0x1_0000_0000) by (nonlinear_arith)
        requires
            l * rise == n * raw_dot(dir, w) - kw,
            raw_dot(dir, w) >= 65517 * 0x1_0000_0000,
            kw <= 3 * (l * nb),
            1 <= l < 0x9_0000_0000,
            n == 0x1_0000_0000,
            nb == 0x1_0000_0010,
    ;
    // The dot product as it is computed, and the density.
    lemma_mul_is_rounded(ud.x, w.x, n, nb);
    lemma_mul_is_rounded(ud.y, w.y, n, nb);
    lemma_mul_is_rounded(ud.z, w.z, n, nb);
    lemma_small_product(ud.x.spec_mul(w.x)@, nb, n);
    lemma_small_product(ud.y.spec_mul(w.y)@, nb, n);
    lemma_small_product(ud.z.spec_mul(w.z)@, nb, n);
    lemma_rounded(ud.x@ * w.x@);
    lemma_rounded(ud.y@ * w.y@);
    lemma_rounded(ud.z@ * w.z@);
    let cosine = spec_dot(ud, w);
    assert(cosine@ == rounded(ud.x@ * w.x@) + rounded(ud.y@ * w.y@) + rounded(ud.z@ * w.z@));
    lemma_spread(rounded(ud.x@ * w.x@), rounded(ud.y@ * w.y@), rounded(ud.z@ * w.z@), n);
    assert(n * cosine@ > rise - 3 * n);
    assert(6000 <= cosine@ <= 3 * nb) by (nonlinear_arith)
        requires
            n * cosine@ > rise - 3 * n,
            rise >= 7000 * 0x1_0000_0000,
            n == 0x1_0000_0000,
            cosine@ <= 3 * nb,
    ;
    let pi = Fixed { raw: PI_RAW };
    let p = cosine@ * n;
    assert(6000 * n <= p <= (3 * nb) * n) by (nonlinear_arith)
        requires
            p == cosine@ * n,
            6000 <= cosine@ <= 3 * nb,
            n > 0,
    ;
    vstd::arithmetic::div_mod::lemma_div_is_ordered(PI_RAW as int, p, PI_RAW as int);
    vstd::arithmetic::div_mod::lemma_div_basics(PI_RAW as int);
    vstd::arithmetic::div_mod::lemma_div_pos_is_pos(p, PI_RAW as int);
    lemma_quotient_shortfall(p, PI_RAW as int);
    assert(1 <= trunc_div(p, PI_RAW as int) <= p);
}

/// The cosine density is positive wherever it draws. For the density
/// around a direction `n` of length at least one sixteenth and within the
/// range of the numbers: every direction that `generate` can return has
/// positive density.
pub proof fn lemma_cosine_density_positive(n: Vec3, direction: Vec3)
    requires
        ONE_RAW / 16 <= int_sqrt(n.spec_raw_norm_squared()) <= MAX_RAW,
        CosinePdf::spec_new(n).could_generate(direction),
    ensures
        CosinePdf::spec_new(n).spec_value(direction)@ > 0,
{
    let pdf = CosinePdf::spec_new(n);
    let w = spec_unit_vector(n);
    lemma_unit_vector_is_nearly_unit(n);
    lemma_cross_with_axis_is_long(w);
    let c = spec_cross(w, spec_helper_axis(w));
    lemma_direction_stays_across(c, w);
    let v = spec_unit_vector(c);
    lemma_cross_stays_across(w, v);
    let u = spec_cross(w, v);
    assert(pdf.uvw == (Onb { u, v, w }));
    let (r1, r2) = choose|r1: Fixed, r2: Fixed|
        0 <= r1@ < ONE_RAW && 0 <= r2@ < ONE_RAW && direction == pdf.uvw.spec_transform(
            spec_cosine_direction(r1, r2),
        );
    lemma_cosine_direction_rises(r1, r2);
    lemma_drawn_direction_rises(u, v, w, spec_cosine_direction(r1, r2));
    lemma_rising_direction_has_density(pdf, direction);
}

/// A material draws only directions of positive density. At a hit whose
/// normal has a length of at least one sixteenth and within the range of
/// the numbers: where the material scatters by a density, every direction
/// that the density can draw has positive density.
pub proof fn lemma_material_density_positive(
    m: Material,
    r_in: Ray,
    rec: HitRecord,
    blur: Vec3,
    chance: Fixed,
    direction: Vec3,
)
    requires
        ONE_RAW / 16 <= int_sqrt(rec.normal.spec_raw_norm_squared()) <= MAX_RAW,
        m.spec_scatter_with(r_in, rec, blur, chance) matches Some(ScatterRecord::Pdf { pdf, .. })
            && pdf.could_generate(direction),
    ensures
        m.spec_scatter_with(r_in, rec, blur, chance) matches Some(ScatterRecord::Pdf { pdf, .. })
            && pdf.spec_value(direction)@ > 0,
{
    match m {
        Material::Lambertian(_) => {
            lemma_cosine_density_positive(rec.normal, direction);
        },
        Material::Isotropic(_) => {
            lemma_uniform_sphere_density_positive();
        },
        _ => {},
    }
}

} // verus!
