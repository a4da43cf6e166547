//! The hits of a sphere lie on its surface.
//!
//! The point of a hit is worked out with rounded products, a square root
//! that is rounded down and a rounded quotient, so its distance from the
//! centre is not the radius to the last place. This module bounds the
//! difference for scenes of every scale for which the coefficients of the
//! equation stay within the range of the numbers.

use crate::fixed::{
    int_sqrt, lemma_int_sqrt_exists, lemma_square_nonnegative, trunc_div, Fixed, ONE_RAW,
};
use crate::hemisphere::raw_dot;
use crate::interval::Interval;
use crate::norm::magnitude;
use crate::ray::Ray;
use crate::reflection::{lemma_product_within, lemma_rounded, rounded, within};
use crate::sphere::Sphere;
use crate::vec3::{spec_dot, Point3};
use vstd::prelude::*;

verus! {

/// By how many units in the last place the squared distance of a hit from
/// the centre of a sphere can differ from the squared radius, for each unit
/// of the square of the scale of the scene.
pub const SURFACE_TOLERANCE_RAW: i64 = 2400;

/// The greatest scale of a scene for which the coefficients of the
/// equation of a sphere stay within the range of the numbers.
pub const MAX_SCALE: i64 = 512;

/// A quotient rounded toward zero, times the divisor, differs from the
/// dividend by less than the divisor.
pub proof fn lemma_quotient_is_near(p: int, a: int)
    requires
        a > 0,
    ensures
        -a < p - a * trunc_div(p, a) < a,
{
    if p >= 0 {
        vstd::arithmetic::div_mod::lemma_fundamental_div_mod(p, a);
    } else {
        let k = (-p) / a;
        vstd::arithmetic::div_mod::lemma_fundamental_div_mod(-p, a);
        assert(a * (-k) == -(a * k)) by (nonlinear_arith);
    }
}

/// `(u - v)² = u² - 2·u·v + v²`.
proof fn lemma_square_of_difference(u: int, v: int)
    by (nonlinear_arith)
    ensures
        (u - v) * (u - v) == u * u - 2 * (u * v) + v * v,
{
}

/// `(a·b)·(c·d) = (a·c)·(b·d)`.
proof fn lemma_swap_inner(a: int, b: int, c: int, d: int)
    by (nonlinear_arith)
    ensures
        (a * b) * (c * d) == (a * c) * (b * d),
{
}

/// `a·(x - 2·y + z) = a·x - 2·(a·y) + a·z`.
proof fn lemma_distribute_three(a: int, x: int, y: int, z: int)
    by (nonlinear_arith)
    ensures
        a * (x - 2 * y + z) == a * x - 2 * (a * y) + a * z,
{
}

/// `a·(b·c) = (a·b)·c = b·(a·c)`.
proof fn lemma_regroup_three(a: int, b: int, c: int)
    by (nonlinear_arith)
    ensures
        a * (b * c) == (a * b) * c,
        a * (b * c) == b * (a * c),
        a * (b * c) == (a * c) * b,
{
}

/// `k·(x - y) = k·x - k·y` and `k·(x + y) = k·x + k·y`.
proof fn lemma_distribute_two(k: int, x: int, y: int)
    by (nonlinear_arith)
    ensures
        k * (x - y) == k * x - k * y,
        k * (x + y) == k * x + k * y,
{
}

/// With `x = a·t - n·h`: `a·(a·t² - 2·n·h·t + n²·c) = x² - n²·(h² - a·c)`.
proof fn lemma_complete_the_square(a: int, h: int, c: int, t: int, n: int)
    ensures
        a * (a * (t * t) - 2 * n * (h * t) + n * n * c) == (a * t - n * h) * (a * t - n * h) - n
            * n * (h * h - a * c),
{
    let at = a * t;
    let nh = n * h;
    let nn = n * n;
    lemma_square_of_difference(at, nh);
    // (a·t)² = a·(a·t²)
    lemma_swap_inner(a, t, a, t);
    lemma_regroup_three(a, a, t * t);
    assert(at * at == a * (a * (t * t)));
    // (a·t)·(n·h) = a·(n·(h·t))
    lemma_swap_inner(a, t, n, h);
    lemma_regroup_three(a, n, t * h);
    assert(t * h == h * t) by (nonlinear_arith);
    assert(at * nh == a * (n * (h * t)));
    // (n·h)² = n²·h²
    lemma_swap_inner(n, h, n, h);
    assert(nh * nh == nn * (h * h));
    lemma_regroup_three(2, n, h * t);
    assert(2 * n * (h * t) == 2 * (n * (h * t)));
    lemma_distribute_three(a, a * (t * t), n * (h * t), nn * c);
    assert(a * (a * (t * t) - 2 * (n * (h * t)) + nn * c) == a * (a * (t * t)) - 2 * (a * (n * (h
        * t))) + a * (nn * c));
    lemma_distribute_two(nn, h * h, a * c);
    lemma_regroup_three(nn, a, c);
    assert(nn * (a * c) == a * (nn * c));
}

/// What is left of the equation of the sphere at the root as it is
/// computed. For the equation `a·t² - 2·h·t + c = 0` in raw values, with a
/// discriminant `disc` that is within two units of `h² - a·c`, its square
/// root `sq` rounded down, and the root `t = (h ± sq) / a` rounded toward
/// zero: the left side is small at `t`.
proof fn lemma_little_is_left_at_root(
    a: int,
    h: int,
    c: int,
    disc: int,
    sq: int,
    t: int,
    n: int,
    sign: int,
)
    requires
        n > 0,
        a > 0,
        n <= 8 * a,
        -2 * n < h * h - a * c - n * disc < 2 * n,
        0 <= sq,
        sq * sq <= n * disc <= sq * sq + 2 * sq,
        sign == 1 || sign == -1,
        -a < (h + sign * sq) * n - a * t < a,
    ensures
        magnitude(a * (t * t) - 2 * n * (h * t) + n * n * c) <= 8 * n * (2 * sq + 2 * n) + 2 * n
            * sq + a,
{
    let g = a * (t * t) - 2 * n * (h * t) + n * n * c;
    let r = (h + sign * sq) * n - a * t;
    let x = a * t - n * h;
    let e = h * h - a * c - n * disc;
    let es = n * disc - sq * sq;
    let y = sign * sq * n;
    assert(x == y - r) by (nonlinear_arith)
        requires
            r == (h + sign * sq) * n - a * t,
            x == a * t - n * h,
            y == sign * sq * n,
    ;
    lemma_complete_the_square(a, h, c, t, n);
    assert(a * g == x * x - n * n * (h * h - a * c));
    assert(x * x == y * y - 2 * (y * r) + r * r) by (nonlinear_arith)
        requires
            x == y - r,
    ;
    assert(y * y == n * n * (sq * sq)) by (nonlinear_arith)
        requires
            y == sign * sq * n,
            sign == 1 || sign == -1,
    ;
    assert(n * n * (h * h - a * c) == n * n * (sq * sq) + n * n * (es + e)) by (nonlinear_arith)
        requires
            e == h * h - a * c - n * disc,
            es == n * disc - sq * sq,
    ;
    assert(a * g == r * r - 2 * (y * r) - n * n * (es + e));
    // each of the three parts is a small multiple of `a`
    assert(0 <= r * r <= a * a) by (nonlinear_arith)
        requires
            -a < r < a,
    ;
    assert(magnitude(y) == sq * n) by (nonlinear_arith)
        requires
            y == sign * sq * n,
            sign == 1 || sign == -1,
            sq >= 0,
            n > 0,
    ;
    assert(-(sq * n * a) <= y * r <= sq * n * a) by (nonlinear_arith)
        requires
            magnitude(y) == sq * n,
            -a < r < a,
            a > 0,
    ;
    assert(-(8 * a * n * (2 * sq + 2 * n)) <= n * n * (es + e) <= 8 * a * n * (2 * sq + 2 * n))
        by (nonlinear_arith)
        requires
            0 < n <= 8 * a,
            -2 * n < e < 2 * n,
            0 <= es <= 2 * sq,
    ;
    let bound = 8 * n * (2 * sq + 2 * n) + 2 * n * sq + a;
    assert(a * bound == 8 * a * n * (2 * sq + 2 * n) + 2 * (sq * n * a) + a * a)
        by (nonlinear_arith)
        requires
            bound == 8 * n * (2 * sq + 2 * n) + 2 * n * sq + a,
    ;
    assert(-(a * bound) <= a * g <= a * bound);
    assert(-bound <= g <= bound) by (nonlinear_arith)
        requires
            -(a * bound) <= a * g <= a * bound,
            a > 0,
    ;
}

/// `(u + v)² = u² + 2·u·v + v²`.
proof fn lemma_square_of_sum(u: int, v: int)
    by (nonlinear_arith)
    ensures
        (u + v) * (u + v) == u * u + 2 * (u * v) + v * v,
{
}

/// `(x + y + z)·k = x·k + y·k + z·k` and `k·(x + y + z) = k·x + k·y + k·z`.
proof fn lemma_distribute_over_three(x: int, y: int, z: int, k: int)
    by (nonlinear_arith)
    ensures
        (x + y + z) * k == x * k + y * k + z * k,
        k * (x + y + z) == k * x + k * y + k * z,
{
}

/// One component of the vector from the centre to the hit, squared. For
/// the component `q` of that vector, which is the rounded product of the
/// component `d` of the direction with the parameter `t`, less the
/// component `oc` of the vector from the origin to the centre, and for
/// what the rounding took, `f = d·t - n·oc - n·q`.
proof fn lemma_component_squared(d: int, oc: int, t: int, q: int, n: int)
    ensures
        n * n * (q * q) == (d * d) * (t * t) - 2 * ((d * oc) * (t * n)) + n * n * (oc * oc) - 2 * (n
            * (q * (d * t - n * oc - n * q))) - (d * t - n * oc - n * q) * (d * t - n * oc - n * q),
{
    let f = d * t - n * oc - n * q;
    let dt = d * t;
    let noc = n * oc;
    let nq = n * q;
    let w = dt - noc;
    assert(w == nq + f);
    lemma_square_of_difference(dt, noc);
    lemma_square_of_sum(nq, f);
    lemma_swap_inner(d, t, d, t);
    assert(dt * dt == (d * d) * (t * t));
    lemma_swap_inner(d, t, oc, n);
    assert(noc == oc * n) by (nonlinear_arith)
        requires
            noc == n * oc,
    ;
    assert(dt * noc == (d * oc) * (t * n));
    lemma_swap_inner(n, oc, n, oc);
    assert(noc * noc == (n * n) * (oc * oc));
    lemma_swap_inner(n, q, n, q);
    assert(nq * nq == (n * n) * (q * q));
    lemma_regroup_three(n, q, f);
    assert(nq * f == n * (q * f));
    assert(w * w == (d * d) * (t * t) - 2 * ((d * oc) * (t * n)) + (n * n) * (oc * oc));
    assert(w * w == (n * n) * (q * q) + 2 * (n * (q * f)) + f * f);
}

/// The squared distance of the hit from the centre, less the squared
/// radius `rr`, in terms of what is left of the equation of the sphere and
/// of what the rounding took of its coefficients. `a2`, `h2` and `oc2` are
/// the exact squared length of the direction, its exact product with the
/// vector to the centre, and the exact squared length of that vector;
/// `a`, `h`, `c` are the rounded coefficients; `q2` is the squared distance,
/// `qf` and `ff` what the rounding of the point adds.
proof fn lemma_gap_spelt_out(
    a2: int,
    h2: int,
    oc2: int,
    rr: int,
    a: int,
    h: int,
    c: int,
    t: int,
    n: int,
    q2: int,
    qf: int,
    ff: int,
)
    requires
        n * n * q2 == a2 * (t * t) - 2 * (h2 * (t * n)) + n * n * oc2 - 2 * (n * qf) - ff,
    ensures
        n * n * (q2 - rr) == n * (a * (t * t) - 2 * n * (h * t) + n * n * c) + (a2 - n * a) * (t
            * t) - 2 * ((h2 - n * h) * (t * n)) + n * n * (oc2 - rr - n * c) - 2 * (n * qf) - ff,
{
    let tt = t * t;
    let tn = t * n;
    let nn = n * n;
    let ht = h * t;
    lemma_distribute_two(nn, q2, rr);
    // the three coefficients, each as its rounded value and the rest
    assert((a2 - n * a) * tt == a2 * tt - (n * a) * tt) by (nonlinear_arith);
    lemma_regroup_three(n, a, tt);
    assert((h2 - n * h) * tn == h2 * tn - (n * h) * tn) by (nonlinear_arith);
    lemma_swap_inner(n, h, t, n);
    assert((n * h) * tn == (n * t) * (h * n));
    lemma_swap_inner(n, t, h, n);
    assert((n * t) * (h * n) == (n * h) * (t * n));
    lemma_swap_inner(n, h, n, t);
    assert((n * h) * (n * t) == nn * ht);
    assert(t * n == n * t) by (nonlinear_arith);
    assert((n * h) * tn == nn * ht);
    lemma_distribute_two(nn, oc2 - rr, n * c);
    lemma_distribute_two(nn, oc2, rr);
    lemma_regroup_three(nn, n, c);
    assert(nn * (n * c) == n * (nn * c));
    // the left side of the equation, times n
    lemma_regroup_three(2, n, ht);
    assert(2 * n * ht == 2 * (n * ht));
    lemma_distribute_three(n, a * tt, n * ht, nn * c);
    lemma_regroup_three(n, n, ht);
    assert(n * (n * ht) == nn * ht);
}

/// The gap is small where its parts are, for a scene of scale `k`.
proof fn lemma_gap_is_small(
    gap: int,
    g: int,
    ea: int,
    eh: int,
    ec: int,
    t: int,
    qf: int,
    ff: int,
    k: int,
)
    requires
        1 <= k <= MAX_SCALE,
        ONE_RAW * ONE_RAW * gap == ONE_RAW * g + ea * (t * t) - 2 * (eh * (t * ONE_RAW)) + ONE_RAW
            * ONE_RAW * ec - 2 * (ONE_RAW * qf) - ff,
        magnitude(g) <= 1241 * k * (ONE_RAW * ONE_RAW),
        magnitude(ea) <= 3 * ONE_RAW,
        magnitude(eh) <= 3 * ONE_RAW,
        magnitude(ec) <= 4 * ONE_RAW,
        magnitude(t) <= 16 * k * ONE_RAW,
        magnitude(qf) <= 120 * k * (ONE_RAW * ONE_RAW),
        0 <= ff <= 3 * (ONE_RAW * ONE_RAW),
    ensures
        magnitude(gap) <= SURFACE_TOLERANCE_RAW * (k * k) * ONE_RAW,
{
    let n = ONE_RAW as int;
    let tt = t * t;
    let tn = t * n;
    let kk = k * k;
    let nn = n * n;
    let cube = n * nn;
    assert(nn == 0x1_0000_0000_0000_0000) by (nonlinear_arith)
        requires
            nn == n * n,
            n == 0x1_0000_0000,
    ;
    assert(k <= kk) by (nonlinear_arith)
        requires
            kk == k * k,
            k >= 1,
    ;
    lemma_product_within(t, t, 16 * k * n, 16 * k * n);
    assert((16 * k * n) * (16 * k * n) == 256 * kk * nn) by (nonlinear_arith)
        requires
            kk == k * k,
            nn == n * n,
    ;
    lemma_product_within(ea, tt, 3 * n, 256 * kk * nn);
    lemma_product_within(t, n, 16 * k * n, n);
    assert((16 * k * n) * n == 16 * k * nn) by (nonlinear_arith)
        requires
            nn == n * n,
    ;
    lemma_product_within(eh, tn, 3 * n, 16 * k * nn);
    assert((3 * n) * (256 * kk * nn) == 768 * kk * cube) by (nonlinear_arith)
        requires
            cube == n * nn,
    ;
    assert((3 * n) * (16 * k * nn) == 48 * k * cube) by (nonlinear_arith)
        requires
            cube == n * nn,
    ;
    assert(cube == 0x1_0000_0000 * 0x1_0000_0000_0000_0000);
    assert(magnitude(n * g) <= 1241 * k * cube);
    assert(magnitude(nn * ec) <= 4 * cube);
    assert(magnitude(n * qf) <= 120 * k * cube);
    assert(magnitude(nn * gap) <= 768 * kk * cube + 1577 * k * cube + 5 * cube);
    assert(magnitude(nn * gap) <= 2400 * kk * cube);
    assert(nn * gap == 0x1_0000_0000_0000_0000 * gap);
    assert(2400 * kk * cube == 0x1_0000_0000_0000_0000 * (2400 * kk * n)) by (nonlinear_arith)
        requires
            cube == n * 0x1_0000_0000_0000_0000,
    ;
    assert(magnitude(gap) <= 2400 * kk * n);
    assert(SURFACE_TOLERANCE_RAW * (k * k) * ONE_RAW == 2400 * kk * n) by (nonlinear_arith)
        requires
            kk == k * k,
            n == ONE_RAW,
            SURFACE_TOLERANCE_RAW == 2400,
    ;
}

/// Whether the sphere and the ray fit a scene of scale `k`: the centre of
/// the sphere at the time of the ray and the origin of the ray lie within
/// `4·k` of the origin on each axis, the radius is at most `4·k`, and the
/// direction has components of at most 2 and a length of at least one
/// half.
pub open spec fn is_within_reach(s: Sphere, r: Ray, k: int) -> bool {
    &&& 1 <= k <= MAX_SCALE
    &&& within(s.center.spec_at(r.time), 4 * k * ONE_RAW)
    &&& within(r.origin, 4 * k * ONE_RAW)
    &&& within(r.direction, 0x2_0000_0000)
    &&& r.direction.spec_raw_norm_squared() >= 0x4000_0000_0000_0000
    &&& 0 <= s.radius@ <= 4 * k * ONE_RAW
}

/// The product of two numbers as it is computed, and how far it is from
/// the exact product, where the bounds of the two keep it within the range
/// of the numbers.
pub proof fn lemma_product(x: Fixed, y: Fixed, bound_x: int, bound_y: int)
    requires
        -bound_x <= x@ <= bound_x,
        -bound_y <= y@ <= bound_y,
        bound_x * bound_y <= 0x4000_0000_0000_0000_0000_0000,
    ensures
        x.spec_mul(y)@ == rounded(x@ * y@),
        magnitude(x.spec_mul(y)@) * ONE_RAW <= bound_x * bound_y,
        -(ONE_RAW as int) < x@ * y@ - ONE_RAW * x.spec_mul(y)@ < ONE_RAW,
{
    lemma_product_within(x@, y@, bound_x, bound_y);
    lemma_rounded(x@ * y@);
}

/// The coefficients of the equation of a sphere within reach, as they are
/// computed: how far each is from its exact value, and how large it is.
proof fn lemma_coefficients(s: Sphere, r: Ray, k: int)
    requires
        is_within_reach(s, r, k),
    ensures
        ({
            let n = ONE_RAW as int;
            let d = r.direction;
            let cc = s.center.spec_at(r.time);
            let oc = cc.spec_sub(r.origin);
            let a = d.spec_length_squared();
            let h = spec_dot(d, oc);
            let c = oc.spec_length_squared().spec_sub(s.radius.spec_mul(s.radius));
            let disc = h.spec_mul(h).spec_sub(a.spec_mul(c));
            &&& oc.x@ == cc.x@ - r.origin.x@
            &&& oc.y@ == cc.y@ - r.origin.y@
            &&& oc.z@ == cc.z@ - r.origin.z@
            &&& magnitude(d.spec_raw_norm_squared() - n * a@) <= 3 * n
            &&& magnitude(raw_dot(d, oc) - n * h@) <= 3 * n
            &&& magnitude(oc.spec_raw_norm_squared() - s.radius@ * s.radius@ - n * c@) <= 4 * n
            &&& n <= 8 * a@
            &&& a@ <= 12 * n
            &&& magnitude(h@) <= 48 * k * n
            &&& magnitude(c@) <= 192 * (k * k) * n
            &&& -2 * n < h@ * h@ - a@ * c@ - n * disc@ < 2 * n
            &&& 0 <= disc@ ==> disc@ <= 4608 * (k * k) * n
        }),
{
    let n = ONE_RAW as int;
    let kk = k * k;
    let nn = n * n;
    assert(nn == 0x1_0000_0000_0000_0000) by (nonlinear_arith)
        requires
            nn == n * n,
            n == 0x1_0000_0000,
    ;
    assert(1 <= kk <= 512 * 512 && k <= kk) by (nonlinear_arith)
        requires
            kk == k * k,
            1 <= k <= 512,
    ;
    let d = r.direction;
    let cc = s.center.spec_at(r.time);
    let oc = cc.spec_sub(r.origin);
    assert(within(oc, 8 * k * n));
    lemma_product(d.x, d.x, 0x2_0000_0000, 0x2_0000_0000);
    lemma_product(d.y, d.y, 0x2_0000_0000, 0x2_0000_0000);
    lemma_product(d.z, d.z, 0x2_0000_0000, 0x2_0000_0000);
    let a = d.spec_length_squared();
    assert(a@ == d.x.spec_mul(d.x)@ + d.y.spec_mul(d.y)@ + d.z.spec_mul(d.z)@);
    assert(0x2_0000_0000 * (8 * k * n) == 16 * k * nn) by (nonlinear_arith)
        requires
            nn == n * n,
            n == 0x1_0000_0000,
    ;
    lemma_product(d.x, oc.x, 0x2_0000_0000, 8 * k * n);
    lemma_product(d.y, oc.y, 0x2_0000_0000, 8 * k * n);
    lemma_product(d.z, oc.z, 0x2_0000_0000, 8 * k * n);
    let h = spec_dot(d, oc);
    assert(h@ == d.x.spec_mul(oc.x)@ + d.y.spec_mul(oc.y)@ + d.z.spec_mul(oc.z)@);
    assert((8 * k * n) * (8 * k * n) == 64 * kk * nn) by (nonlinear_arith)
        requires
            kk == k * k,
            nn == n * n,
    ;
    assert((4 * k * n) * (4 * k * n) == 16 * kk * nn) by (nonlinear_arith)
        requires
            kk == k * k,
            nn == n * n,
    ;
    lemma_product(oc.x, oc.x, 8 * k * n, 8 * k * n);
    lemma_product(oc.y, oc.y, 8 * k * n, 8 * k * n);
    lemma_product(oc.z, oc.z, 8 * k * n, 8 * k * n);
    lemma_product(s.radius, s.radius, 4 * k * n, 4 * k * n);
    lemma_square_nonnegative(oc.x);
    lemma_square_nonnegative(oc.y);
    lemma_square_nonnegative(oc.z);
    lemma_square_nonnegative(s.radius);
    assert(oc.x.spec_mul(oc.x)@ <= 64 * kk * n);
    assert(oc.y.spec_mul(oc.y)@ <= 64 * kk * n);
    assert(oc.z.spec_mul(oc.z)@ <= 64 * kk * n);
    assert(s.radius.spec_mul(s.radius)@ <= 16 * kk * n);
    let c = oc.spec_length_squared().spec_sub(s.radius.spec_mul(s.radius));
    assert(c@ == oc.x.spec_mul(oc.x)@ + oc.y.spec_mul(oc.y)@ + oc.z.spec_mul(oc.z)@
        - s.radius.spec_mul(s.radius)@);
    assert(magnitude(h@) <= 48 * k * n);
    assert(magnitude(c@) <= 192 * kk * n);
    assert(a@ <= 12 * n);
    assert(n * a@ > d.spec_raw_norm_squared() - 3 * n);
    assert(n <= 8 * a@);
    assert((48 * k * n) * (48 * k * n) == 2304 * kk * nn) by (nonlinear_arith)
        requires
            kk == k * k,
            nn == n * n,
    ;
    assert((12 * n) * (192 * kk * n) == 2304 * kk * nn) by (nonlinear_arith)
        requires
            nn == n * n,
    ;
    lemma_product(h, h, 48 * k * n, 48 * k * n);
    lemma_product(a, c, 12 * n, 192 * kk * n);
    assert(magnitude(h.spec_mul(h)@) <= 2304 * kk * n);
    assert(magnitude(a.spec_mul(c)@) <= 2304 * kk * n);
    let disc = h.spec_mul(h).spec_sub(a.spec_mul(c));
    assert(disc@ == h.spec_mul(h)@ - a.spec_mul(c)@);
}

/// The square root of a discriminant of a scene of scale `k`, as it is
/// computed.
proof fn lemma_root_of_discriminant(disc: Fixed, k: int)
    requires
        1 <= k <= MAX_SCALE,
        0 <= disc@ <= 4608 * (k * k) * ONE_RAW,
    ensures
        0 <= disc.spec_sqrt()@ <= 68 * k * ONE_RAW,
        disc.spec_sqrt()@ * disc.spec_sqrt()@ <= ONE_RAW * disc@ <= disc.spec_sqrt()@
            * disc.spec_sqrt()@ + 2 * disc.spec_sqrt()@,
{
    let n = ONE_RAW as int;
    if disc@ > 0 {
        let m = disc@ * n;
        lemma_int_sqrt_exists(m);
        let root = int_sqrt(m);
        let top = 68 * k * n;
        assert(m <= 4608 * (k * k) * n * n) by (nonlinear_arith)
            requires
                m == disc@ * n,
                disc@ <= 4608 * (k * k) * n,
                n > 0,
        ;
        assert(top * top == 4624 * (k * k) * n * n) by (nonlinear_arith)
            requires
                top == 68 * k * n,
        ;
        assert(4608 * (k * k) * n * n <= 4624 * (k * k) * n * n) by (nonlinear_arith)
            requires
                n > 0,
        ;
        assert(root <= top) by (nonlinear_arith)
            requires
                0 <= root,
                0 <= top,
                root * root <= m,
                m <= top * top,
        ;
        assert((root + 1) * (root + 1) == root * root + 2 * root + 1) by (nonlinear_arith);
    }
}

/// The parameter of a hit as it is computed from the coefficients: the
/// quotient of `h ± sq` by `a`, where it is of moderate size.
proof fn lemma_parameter_is_near(h: Fixed, sq: Fixed, a: Fixed, sign: int, k: int)
    requires
        1 <= k <= MAX_SCALE,
        magnitude(h@) <= 48 * k * ONE_RAW,
        0 <= sq@ <= 68 * k * ONE_RAW,
        0 < a@,
        sign == 1 || sign == -1,
        magnitude(spec_parameter(h, sq, a, sign)@) <= 16 * k * ONE_RAW,
    ensures
        -a@ < (h@ + sign * sq@) * ONE_RAW - a@ * spec_parameter(h, sq, a, sign)@ < a@,
{
    let p = (h@ + sign * sq@) * ONE_RAW;
    lemma_quotient_is_near(p, a@);
    if sign == 1 {
        assert(h.spec_add(sq)@ == h@ + sq@);
    } else {
        assert(h.spec_sub(sq)@ == h@ - sq@);
    }
}

/// The root `(h + sq) / a` of the equation where `sign` is 1, and the root
/// `(h - sq) / a` where it is not.
pub open spec fn spec_parameter(h: Fixed, sq: Fixed, a: Fixed, sign: int) -> Fixed {
    if sign == 1 {
        h.spec_add(sq).spec_div(a)
    } else {
        h.spec_sub(sq).spec_div(a)
    }
}

/// One component of the point of a hit, as it is computed from the
/// component `o` of the origin of the ray, the component `d` of its
/// direction and the parameter `t`, seen from the component `cc` of the
/// centre, in a scene of scale `k`.
proof fn lemma_component_of_point(o: Fixed, d: Fixed, t: Fixed, cc: Fixed, k: int)
    requires
        1 <= k <= MAX_SCALE,
        magnitude(o@) <= 4 * k * ONE_RAW,
        magnitude(cc@) <= 4 * k * ONE_RAW,
        magnitude(d@) <= 0x2_0000_0000,
        magnitude(t@) <= 16 * k * ONE_RAW,
    ensures
        ({
            let q = o.spec_add(d.spec_mul(t)).spec_sub(cc)@;
            let f = d@ * t@ - ONE_RAW * (cc@ - o@) - ONE_RAW * q;
            &&& magnitude(q) <= 40 * k * ONE_RAW
            &&& -(ONE_RAW as int) < f < ONE_RAW
            &&& magnitude(q * f) <= 40 * k * (ONE_RAW * ONE_RAW)
            &&& 0 <= f * f <= ONE_RAW * ONE_RAW
        }),
{
    let n = ONE_RAW as int;
    let nn = n * n;
    assert(nn == 0x1_0000_0000_0000_0000) by (nonlinear_arith)
        requires
            nn == n * n,
            n == 0x1_0000_0000,
    ;
    assert(0x2_0000_0000 * (16 * k * n) == 32 * k * nn) by (nonlinear_arith)
        requires
            nn == n * n,
            n == 0x1_0000_0000,
    ;
    lemma_product(d, t, 0x2_0000_0000, 16 * k * n);
    assert(magnitude(d.spec_mul(t)@) <= 32 * k * n);
    let q = o.spec_add(d.spec_mul(t)).spec_sub(cc)@;
    assert(q == o@ + d.spec_mul(t)@ - cc@);
    let f = d@ * t@ - n * (cc@ - o@) - n * q;
    assert(f == d@ * t@ - n * d.spec_mul(t)@);
    lemma_product_within(q, f, 40 * k * n, n);
    assert((40 * k * n) * n == 40 * k * nn) by (nonlinear_arith)
        requires
            nn == n * n,
    ;
    assert(0 <= f * f <= n * n) by (nonlinear_arith)
        requires
            -n < f < n,
    ;
}

/// By how much the squared distance of the point `p` from the centre of
/// the sphere, at the time of the ray, exceeds the squared radius, in
/// squared raw units.
pub open spec fn spec_surface_gap(s: Sphere, r: Ray, p: Point3) -> int {
    p.spec_sub(s.center.spec_at(r.time)).spec_raw_norm_squared() - s.radius@ * s.radius@
}

/// The point at parameter `t`, where `t` is a root of the equation of the
/// sphere as it is computed, lies on the sphere to within the tolerance.
proof fn lemma_root_lies_on_the_sphere(s: Sphere, r: Ray, sign: int, k: int)
    requires
        is_within_reach(s, r, k),
        sign == 1 || sign == -1,
        ({
            let oc = s.center.spec_at(r.time).spec_sub(r.origin);
            let a = r.direction.spec_length_squared();
            let h = spec_dot(r.direction, oc);
            let c = oc.spec_length_squared().spec_sub(s.radius.spec_mul(s.radius));
            let disc = h.spec_mul(h).spec_sub(a.spec_mul(c));
            &&& disc@ >= 0
            &&& magnitude(spec_parameter(h, disc.spec_sqrt(), a, sign)@) <= 16 * k * ONE_RAW
        }),
    ensures
        ({
            let oc = s.center.spec_at(r.time).spec_sub(r.origin);
            let a = r.direction.spec_length_squared();
            let h = spec_dot(r.direction, oc);
            let c = oc.spec_length_squared().spec_sub(s.radius.spec_mul(s.radius));
            let disc = h.spec_mul(h).spec_sub(a.spec_mul(c));
            let t = spec_parameter(h, disc.spec_sqrt(), a, sign);
            magnitude(spec_surface_gap(s, r, r.spec_at(t))) <= SURFACE_TOLERANCE_RAW * (k * k)
                * ONE_RAW
        }),
{
    let n = ONE_RAW as int;
    let d = r.direction;
    let o = r.origin;
    let cc = s.center.spec_at(r.time);
    let oc = cc.spec_sub(o);
    let a = d.spec_length_squared();
    let h = spec_dot(d, oc);
    let c = oc.spec_length_squared().spec_sub(s.radius.spec_mul(s.radius));
    let disc = h.spec_mul(h).spec_sub(a.spec_mul(c));
    let sq = disc.spec_sqrt();
    let t = spec_parameter(h, sq, a, sign);
    lemma_coefficients(s, r, k);
    lemma_root_of_discriminant(disc, k);
    lemma_parameter_is_near(h, sq, a, sign, k);
    lemma_little_is_left_at_root(a@, h@, c@, disc@, sq@, t@, n, sign);
    let g = a@ * (t@ * t@) - 2 * n * (h@ * t@) + n * n * c@;
    assert(n * n == 0x1_0000_0000_0000_0000) by (nonlinear_arith)
        requires
            n == 0x1_0000_0000,
    ;
    assert(8 * n * (2 * sq@ + 2 * n) + 2 * n * sq@ + a@ <= 1241 * k * (n * n)) by (nonlinear_arith)
        requires
            0 <= sq@ <= 68 * k * n,
            a@ <= 12 * n,
            n >= 12,
            k >= 1,
    ;
    assert(magnitude(g) <= 1241 * k * (n * n));
    // the three components of the vector from the centre to the point
    let p = r.spec_at(t);
    let q = p.spec_sub(cc);
    lemma_component_of_point(o.x, d.x, t, cc.x, k);
    lemma_component_of_point(o.y, d.y, t, cc.y, k);
    lemma_component_of_point(o.z, d.z, t, cc.z, k);
    lemma_component_squared(d.x@, oc.x@, t@, q.x@, n);
    lemma_component_squared(d.y@, oc.y@, t@, q.y@, n);
    lemma_component_squared(d.z@, oc.z@, t@, q.z@, n);
    let fx = d.x@ * t@ - n * oc.x@ - n * q.x@;
    let fy = d.y@ * t@ - n * oc.y@ - n * q.y@;
    let fz = d.z@ * t@ - n * oc.z@ - n * q.z@;
    let q2 = q.spec_raw_norm_squared();
    let a2 = d.spec_raw_norm_squared();
    let h2 = raw_dot(d, oc);
    let oc2 = oc.spec_raw_norm_squared();
    let qf = q.x@ * fx + q.y@ * fy + q.z@ * fz;
    let ff = fx * fx + fy * fy + fz * fz;
    let tt = t@ * t@;
    let tn = t@ * n;
    let nn = n * n;
    lemma_distribute_over_three(q.x@ * q.x@, q.y@ * q.y@, q.z@ * q.z@, nn);
    lemma_distribute_over_three(d.x@ * d.x@, d.y@ * d.y@, d.z@ * d.z@, tt);
    lemma_distribute_over_three(d.x@ * oc.x@, d.y@ * oc.y@, d.z@ * oc.z@, tn);
    lemma_distribute_over_three(oc.x@ * oc.x@, oc.y@ * oc.y@, oc.z@ * oc.z@, nn);
    lemma_distribute_over_three(q.x@ * fx, q.y@ * fy, q.z@ * fz, n);
    assert(nn * q2 == a2 * tt - 2 * (h2 * tn) + nn * oc2 - 2 * (n * qf) - ff);
    let rr = s.radius@ * s.radius@;
    lemma_gap_spelt_out(a2, h2, oc2, rr, a@, h@, c@, t@, n, q2, qf, ff);
    lemma_gap_is_small(q2 - rr, g, a2 - n * a@, h2 - n * h@, oc2 - rr - n * c@, t@, qf, ff, k);
}

/// A hit of a sphere lies on the sphere. For a sphere and a ray that fit
/// a scene of scale `k`, and a hit whose parameter is at most `16·k` in
/// magnitude: the squared distance of the point of the hit from the centre
/// differs from the squared radius by at most `2400·k²` units in the last
/// place, which for a radius of `k` or more is less than a millionth of
/// the squared radius.
pub proof fn lemma_sphere_hit_lies_on_the_sphere(s: Sphere, r: Ray, ray_t: Interval, k: int)
    requires
        is_within_reach(s, r, k),
        s.spec_hit(r, ray_t) matches Some(rec) && magnitude(rec.t@) <= 16 * k * ONE_RAW,
    ensures
        s.spec_hit(r, ray_t) matches Some(rec) && magnitude(spec_surface_gap(s, r, rec.p))
            <= SURFACE_TOLERANCE_RAW * (k * k) * ONE_RAW && (s.radius@ >= k * ONE_RAW ==> 1_000_000
            * magnitude(spec_surface_gap(s, r, rec.p)) <= s.radius@ * s.radius@),
{
    reveal(Sphere::spec_hit);
    let n = ONE_RAW as int;
    let oc = s.center.spec_at(r.time).spec_sub(r.origin);
    let a = r.direction.spec_length_squared();
    let h = spec_dot(r.direction, oc);
    let c = oc.spec_length_squared().spec_sub(s.radius.spec_mul(s.radius));
    let disc = h.spec_mul(h).spec_sub(a.spec_mul(c));
    let rec = s.spec_hit(r, ray_t)->Some_0;
    let root = s.spec_root(r, ray_t)->Some_0;
    assert(rec == s.spec_record_at(r, root));
    if root == spec_parameter(h, disc.spec_sqrt(), a, -1) {
        lemma_root_lies_on_the_sphere(s, r, -1, k);
    } else {
        assert(root == spec_parameter(h, disc.spec_sqrt(), a, 1));
        lemma_root_lies_on_the_sphere(s, r, 1, k);
    }
    if s.radius@ >= k * n {
        let gap = magnitude(spec_surface_gap(s, r, rec.p));
        let kn = k * n;
        assert(s.radius@ * s.radius@ >= kn * kn) by (nonlinear_arith)
            requires
                s.radius@ >= kn,
                kn > 0,
        ;
        assert(kn * kn == (k * k) * (n * n)) by (nonlinear_arith)
            requires
                kn == k * n,
        ;
        assert(1_000_000 * (SURFACE_TOLERANCE_RAW * (k * k) * ONE_RAW) <= (k * k) * (n * n))
            by (nonlinear_arith)
            requires
                SURFACE_TOLERANCE_RAW == 2400,
                n == 0x1_0000_0000,
                ONE_RAW == 0x1_0000_0000,
                k >= 1,
        ;
    }
}

} // verus!
