//! Mirroring twice in the same plane.
//!
//! In exact arithmetic a vector mirrored twice in a plane with a unit
//! normal is the vector itself. Here every product is rounded, and the
//! normal is a unit vector only to within rounding; the vector comes back
//! changed by a few hundred units in the last place at most.

use crate::fixed::{trunc_div, Fixed, ONE_RAW};
use crate::norm::{lemma_trunc_div_remainder, magnitude};
use crate::vec3::{in_unit_cube, is_nearly_unit, spec_dot, spec_reflect, Vec3};
use vstd::prelude::*;

verus! {

/// The most, in units in the last place, by which a component of a vector
/// of the unit cube changes when the vector is mirrored twice.
pub const MIRROR_TOLERANCE_RAW: i64 = 420;

/// The product `p` of two raw values as a raw value, rounded toward zero.
pub open spec fn rounded(p: int) -> int {
    trunc_div(p, ONE_RAW as int)
}

/// The rounded product falls short of the exact product by less than one
/// unit in the last place, and is no greater in magnitude.
pub proof fn lemma_rounded(p: int)
    ensures
        -(ONE_RAW as int) < p - ONE_RAW * rounded(p) < ONE_RAW,
        magnitude(rounded(p)) * ONE_RAW <= magnitude(p),
{
    lemma_trunc_div_remainder(p, ONE_RAW as int);
    let m = magnitude(rounded(p));
    assert(ONE_RAW * rounded(p) == rounded(p) * ONE_RAW) by (nonlinear_arith);
    assert(m * ONE_RAW == rounded(p) * ONE_RAW || m * ONE_RAW == -(rounded(p) * ONE_RAW))
        by (nonlinear_arith)
        requires
            m == rounded(p) || m == -rounded(p),
    ;
}

/// A product of two numbers of bounded magnitude has bounded magnitude.
pub proof fn lemma_product_within(a: int, b: int, bound_a: int, bound_b: int)
    by (nonlinear_arith)
    requires
        -bound_a <= a <= bound_a,
        -bound_b <= b <= bound_b,
    ensures
        -(bound_a * bound_b) <= a * b <= bound_a * bound_b,
{
}

/// The product of two moderate raw values, as computed, is their rounded
/// product: nothing saturates.
pub proof fn lemma_mul_is_rounded(a: Fixed, b: Fixed, bound_a: int, bound_b: int)
    requires
        -bound_a <= a@ <= bound_a,
        -bound_b <= b@ <= bound_b,
        0 <= bound_a <= 0x100_0000_0000,
        0 <= bound_b <= 0x100_0000_0000,
    ensures
        a.spec_mul(b)@ == rounded(a@ * b@),
        magnitude(a.spec_mul(b)@) * ONE_RAW <= bound_a * bound_b,
{
    lemma_product_within(a@, b@, bound_a, bound_b);
    lemma_rounded(a@ * b@);
    assert(bound_a * bound_b <= 0x100_0000_0000 * 0x100_0000_0000) by (nonlinear_arith)
        requires
            0 <= bound_a <= 0x100_0000_0000,
            0 <= bound_b <= 0x100_0000_0000,
    ;
    let m = magnitude(rounded(a@ * b@));
    assert(m <= 0x1_0000_0000_0000) by (nonlinear_arith)
        requires
            m * ONE_RAW <= 0x100_0000_0000 * 0x100_0000_0000,
            ONE_RAW == 0x1_0000_0000,
    ;
}

/// Whether every component of `v` is at most `bound` in magnitude.
pub open spec fn within(v: Vec3, bound: int) -> bool {
    &&& -bound <= v.x@ <= bound
    &&& -bound <= v.y@ <= bound
    &&& -bound <= v.z@ <= bound
}

/// The dot product of two moderate vectors as it is computed: the sum of
/// the three rounded products.
pub open spec fn rounded_dot(v: Vec3, n: Vec3) -> int {
    rounded(v.x@ * n.x@) + rounded(v.y@ * n.y@) + rounded(v.z@ * n.z@)
}

/// Mirroring a moderate vector in a plane with a moderate normal, spelt
/// out: each component less the rounded product of the component of the
/// normal with twice the dot product.
pub proof fn lemma_reflect_spelt_out(v: Vec3, n: Vec3)
    requires
        within(v, 0x10_0000_0000),
        within(n, 0x2_0000_0000),
    ensures
        spec_dot(v, n)@ == rounded_dot(v, n),
        magnitude(rounded_dot(v, n)) <= 0x60_0000_0000,
        spec_reflect(v, n).x@ == v.x@ - rounded(n.x@ * (2 * rounded_dot(v, n))),
        spec_reflect(v, n).y@ == v.y@ - rounded(n.y@ * (2 * rounded_dot(v, n))),
        spec_reflect(v, n).z@ == v.z@ - rounded(n.z@ * (2 * rounded_dot(v, n))),
{
    lemma_mul_is_rounded(v.x, n.x, 0x10_0000_0000, 0x2_0000_0000);
    lemma_mul_is_rounded(v.y, n.y, 0x10_0000_0000, 0x2_0000_0000);
    lemma_mul_is_rounded(v.z, n.z, 0x10_0000_0000, 0x2_0000_0000);
    let d = rounded_dot(v, n);
    let dot = spec_dot(v, n);
    assert(0x10_0000_0000int * 0x2_0000_0000 == 0x20_0000_0000 * 0x1_0000_0000)
        by (nonlinear_arith);
    assert(magnitude(v.x.spec_mul(n.x)@) <= 0x20_0000_0000) by (nonlinear_arith)
        requires
            magnitude(v.x.spec_mul(n.x)@) * ONE_RAW <= 0x20_0000_0000 * 0x1_0000_0000,
            ONE_RAW == 0x1_0000_0000,
    ;
    assert(magnitude(v.y.spec_mul(n.y)@) <= 0x20_0000_0000) by (nonlinear_arith)
        requires
            magnitude(v.y.spec_mul(n.y)@) * ONE_RAW <= 0x20_0000_0000 * 0x1_0000_0000,
            ONE_RAW == 0x1_0000_0000,
    ;
    assert(magnitude(v.z.spec_mul(n.z)@) <= 0x20_0000_0000) by (nonlinear_arith)
        requires
            magnitude(v.z.spec_mul(n.z)@) * ONE_RAW <= 0x20_0000_0000 * 0x1_0000_0000,
            ONE_RAW == 0x1_0000_0000,
    ;
    assert(dot@ == d);
    let two = Fixed::spec_from_int(2);
    assert(two@ == 2 * ONE_RAW);
    let twice = two.spec_mul(dot);
    assert(two@ * dot@ == (2 * d) * ONE_RAW) by (nonlinear_arith)
        requires
            two@ == 2 * ONE_RAW,
            dot@ == d,
    ;
    lemma_whole_multiple(2 * d);
    assert(twice@ == 2 * d);
    lemma_mul_is_rounded(n.x, twice, 0x2_0000_0000, 0xc0_0000_0000);
    lemma_mul_is_rounded(n.y, twice, 0x2_0000_0000, 0xc0_0000_0000);
    lemma_mul_is_rounded(n.z, twice, 0x2_0000_0000, 0xc0_0000_0000);
    assert(0x2_0000_0000int * 0xc0_0000_0000 == 0x180_0000_0000 * 0x1_0000_0000)
        by (nonlinear_arith);
    assert(magnitude(n.x.spec_mul(twice)@) <= 0x180_0000_0000) by (nonlinear_arith)
        requires
            magnitude(n.x.spec_mul(twice)@) * ONE_RAW <= 0x180_0000_0000 * 0x1_0000_0000,
            ONE_RAW == 0x1_0000_0000,
    ;
    assert(magnitude(n.y.spec_mul(twice)@) <= 0x180_0000_0000) by (nonlinear_arith)
        requires
            magnitude(n.y.spec_mul(twice)@) * ONE_RAW <= 0x180_0000_0000 * 0x1_0000_0000,
            ONE_RAW == 0x1_0000_0000,
    ;
    assert(magnitude(n.z.spec_mul(twice)@) <= 0x180_0000_0000) by (nonlinear_arith)
        requires
            magnitude(n.z.spec_mul(twice)@) * ONE_RAW <= 0x180_0000_0000 * 0x1_0000_0000,
            ONE_RAW == 0x1_0000_0000,
    ;
}

/// A whole multiple of one, rounded, is the multiple.
pub proof fn lemma_whole_multiple(k: int)
    ensures
        rounded(k * ONE_RAW) == k,
{
    let n = ONE_RAW as int;
    if k >= 0 {
        vstd::arithmetic::div_mod::lemma_div_multiples_vanish(k, n);
        assert(k * n >= 0) by (nonlinear_arith)
            requires
                k >= 0,
                n > 0,
        ;
    } else {
        vstd::arithmetic::div_mod::lemma_div_multiples_vanish(-k, n);
        assert(-(k * n) == (-k) * n) by (nonlinear_arith);
        assert(k * n < 0) by (nonlinear_arith)
            requires
                k < 0,
                n > 0,
        ;
    }
}

/// `(a - b)·c = a·c - b·c`.
proof fn lemma_distribute_difference(a: int, b: int, c: int)
    by (nonlinear_arith)
    ensures
        (a - b) * c == a * c - b * c,
{
}

/// `(a + b)·c = a·c + b·c`.
proof fn lemma_distribute_sum(a: int, b: int, c: int)
    by (nonlinear_arith)
    ensures
        (a + b) * c == a * c + b * c,
{
}

/// `k·(s·n) = (k·s)·n`.
proof fn lemma_regroup(k: int, s: int, n: int)
    by (nonlinear_arith)
    ensures
        k * (s * n) == (k * s) * n,
{
}

/// `(n·(2·d))·n = 2·(d·(n·n))`.
proof fn lemma_twice_through(n: int, d: int)
    by (nonlinear_arith)
    ensures
        (n * (2 * d)) * n == 2 * (d * (n * n)),
        n * (2 * d) == 2 * (n * d),
{
}

/// A number whose square is at most `2^64 + 33·2^32` is at most
/// `2^32 + 16` in magnitude.
proof fn lemma_component_of_nearly_unit(a: int, b: int, c: int)
    by (nonlinear_arith)
    requires
        a * a + b * b + c * c <= 0x1_0000_0000_0000_0000 + 33 * 0x1_0000_0000,
    ensures
        -0x1_0000_0010 <= a <= 0x1_0000_0010,
{
}

/// What the two mirrorings take from component `i` adds up to little:
/// from the two rounded products `s`, `s2` and their shortfalls, given how
/// little the two dot products add up to.
proof fn lemma_little_is_taken(n_i: int, d0: int, d1: int, s: int, s2: int, nn: int)
    requires
        nn == ONE_RAW,
        -0x1_0000_0010 <= n_i <= 0x1_0000_0010,
        -207 <= d0 + d1 <= 207,
        -nn < n_i * (2 * d0) - nn * s < nn,
        -nn < n_i * (2 * d1) - nn * s2 < nn,
    ensures
        -420 <= s + s2 <= 420,
{
    let dsum = d0 + d1;
    lemma_twice_through(n_i, d0);
    lemma_twice_through(n_i, d1);
    lemma_distribute_sum(d0, d1, n_i);
    assert(n_i * d0 + n_i * d1 == n_i * dsum) by (nonlinear_arith)
        requires
            dsum == d0 + d1,
    ;
    lemma_product_within(n_i, dsum, 0x1_0000_0010, 207);
    let taken = nn * s + nn * s2;
    assert(nn * (s + s2) == taken) by (nonlinear_arith)
        requires
            taken == nn * s + nn * s2,
    ;
    assert(-(2 * (0x1_0000_0010 * 207) + 2 * nn) < taken < 2 * (0x1_0000_0010 * 207) + 2 * nn);
    assert(-420 <= s + s2 <= 420) by (nonlinear_arith)
        requires
            -(2 * (0x1_0000_0010 * 207) + 2 * nn) < nn * (s + s2) < 2 * (0x1_0000_0010 * 207) + 2
                * nn,
            nn == 0x1_0000_0000,
    ;
}

/// Whether each component of `a` differs from that of `b` by at most
/// `tolerance` units in the last place.
pub open spec fn differs_by_at_most(a: Vec3, b: Vec3, tolerance: int) -> bool {
    &&& -tolerance <= a.x@ - b.x@ <= tolerance
    &&& -tolerance <= a.y@ - b.y@ <= tolerance
    &&& -tolerance <= a.z@ - b.z@ <= tolerance
}

/// The two dot products of a double mirroring nearly cancel: the dot
/// product of the vector with the normal and that of the mirrored vector
/// with the normal add up to at most 207 units in the last place.
proof fn lemma_dot_products_cancel(v: Vec3, n: Vec3)
    requires
        in_unit_cube(v),
        is_nearly_unit(n),
    ensures
        within(n, 0x1_0000_0010),
        within(spec_reflect(v, n), 0x8_0000_0000),
        -207 <= rounded_dot(v, n) + rounded_dot(spec_reflect(v, n), n) <= 207,
{
    let nn = ONE_RAW as int;
    lemma_component_of_nearly_unit(n.x@, n.y@, n.z@);
    lemma_component_of_nearly_unit(n.y@, n.z@, n.x@);
    lemma_component_of_nearly_unit(n.z@, n.x@, n.y@);
    lemma_reflect_spelt_out(v, n);
    let d0 = rounded_dot(v, n);
    let w = spec_reflect(v, n);
    // The first dot product and its shortfall.
    let p1 = v.x@ * n.x@;
    let p2 = v.y@ * n.y@;
    let p3 = v.z@ * n.z@;
    lemma_rounded(p1);
    lemma_rounded(p2);
    lemma_rounded(p3);
    lemma_product_within(v.x@, n.x@, nn, 0x1_0000_0010);
    lemma_product_within(v.y@, n.y@, nn, 0x1_0000_0010);
    lemma_product_within(v.z@, n.z@, nn, 0x1_0000_0010);
    let rho = p1 + p2 + p3 - nn * d0;
    assert(nn * d0 == nn * rounded(p1) + nn * rounded(p2) + nn * rounded(p3)) by (nonlinear_arith)
        requires
            d0 == rounded(p1) + rounded(p2) + rounded(p3),
    ;
    assert(-3 * nn < rho < 3 * nn);
    assert(-0x3_0000_0030 <= d0 <= 0x3_0000_0030) by (nonlinear_arith)
        requires
            magnitude(rounded(p1)) * nn <= nn * 0x1_0000_0010,
            magnitude(rounded(p2)) * nn <= nn * 0x1_0000_0010,
            magnitude(rounded(p3)) * nn <= nn * 0x1_0000_0010,
            d0 == rounded(p1) + rounded(p2) + rounded(p3),
            nn == 0x1_0000_0000,
    ;
    // What the first mirroring takes from each component, and its shortfall.
    let q1 = n.x@ * (2 * d0);
    let q2 = n.y@ * (2 * d0);
    let q3 = n.z@ * (2 * d0);
    let s1 = rounded(q1);
    let s2 = rounded(q2);
    let s3 = rounded(q3);
    lemma_rounded(q1);
    lemma_rounded(q2);
    lemma_rounded(q3);
    lemma_product_within(n.x@, 2 * d0, 0x1_0000_0010, 0x6_0000_0060);
    lemma_product_within(n.y@, 2 * d0, 0x1_0000_0010, 0x6_0000_0060);
    lemma_product_within(n.z@, 2 * d0, 0x1_0000_0010, 0x6_0000_0060);
    assert(0x1_0000_0010int * 0x6_0000_0060 <= 0x7_0000_0000 * 0x1_0000_0000) by (nonlinear_arith);
    assert(-0x7_0000_0000 <= s1 <= 0x7_0000_0000 && -0x7_0000_0000 <= s2 <= 0x7_0000_0000
        && -0x7_0000_0000 <= s3 <= 0x7_0000_0000) by (nonlinear_arith)
        requires
            magnitude(s1) * nn <= 0x7_0000_0000 * 0x1_0000_0000,
            magnitude(s2) * nn <= 0x7_0000_0000 * 0x1_0000_0000,
            magnitude(s3) * nn <= 0x7_0000_0000 * 0x1_0000_0000,
            nn == 0x1_0000_0000,
    ;
    assert(w.x@ == v.x@ - s1 && w.y@ == v.y@ - s2 && w.z@ == v.z@ - s3);
    let f1 = q1 - nn * s1;
    let f2 = q2 - nn * s2;
    let f3 = q3 - nn * s3;
    // The second dot product and its shortfall.
    lemma_reflect_spelt_out(w, n);
    let d1 = rounded_dot(w, n);
    let r1 = w.x@ * n.x@;
    let r2 = w.y@ * n.y@;
    let r3 = w.z@ * n.z@;
    lemma_rounded(r1);
    lemma_rounded(r2);
    lemma_rounded(r3);
    let rho2 = r1 + r2 + r3 - nn * d1;
    assert(nn * d1 == nn * rounded(r1) + nn * rounded(r2) + nn * rounded(r3)) by (nonlinear_arith)
        requires
            d1 == rounded(r1) + rounded(r2) + rounded(r3),
    ;
    assert(-3 * nn < rho2 < 3 * nn);
    // The mirrored vector times the normal, through what was taken.
    lemma_distribute_difference(v.x@, s1, n.x@);
    lemma_distribute_difference(v.y@, s2, n.y@);
    lemma_distribute_difference(v.z@, s3, n.z@);
    let t1 = s1 * n.x@;
    let t2 = s2 * n.y@;
    let t3 = s3 * n.z@;
    assert(r1 + r2 + r3 == p1 + p2 + p3 - (t1 + t2 + t3));
    // What was taken, times the normal, through the squares of the normal.
    lemma_regroup(nn, s1, n.x@);
    lemma_regroup(nn, s2, n.y@);
    lemma_regroup(nn, s3, n.z@);
    lemma_distribute_difference(q1, f1, n.x@);
    lemma_distribute_difference(q2, f2, n.y@);
    lemma_distribute_difference(q3, f3, n.z@);
    lemma_twice_through(n.x@, d0);
    lemma_twice_through(n.y@, d0);
    lemma_twice_through(n.z@, d0);
    let g1 = f1 * n.x@;
    let g2 = f2 * n.y@;
    let g3 = f3 * n.z@;
    let big_f = g1 + g2 + g3;
    let x2 = n.x@ * n.x@;
    let y2 = n.y@ * n.y@;
    let z2 = n.z@ * n.z@;
    let big_q = x2 + y2 + z2;
    assert(nn * t1 == 2 * (d0 * x2) - g1);
    assert(nn * t2 == 2 * (d0 * y2) - g2);
    assert(nn * t3 == 2 * (d0 * z2) - g3);
    assert(d0 * big_q == d0 * x2 + d0 * y2 + d0 * z2) by (nonlinear_arith)
        requires
            big_q == x2 + y2 + z2,
    ;
    assert(nn * (t1 + t2 + t3) == nn * t1 + nn * t2 + nn * t3) by (nonlinear_arith);
    assert(nn * (t1 + t2 + t3) == 2 * (d0 * big_q) - big_f);
    // The two dot products together.
    let delta = big_q - nn * nn;
    assert(-6 * nn <= delta <= 33 * nn) by (nonlinear_arith)
        requires
            0x1_0000_0000_0000_0000 - 6 * 0x1_0000_0000 <= big_q <= 0x1_0000_0000_0000_0000 + 33
                * 0x1_0000_0000,
            delta == big_q - nn * nn,
            nn == 0x1_0000_0000,
    ;
    assert(d0 * big_q == d0 * (nn * nn) + d0 * delta) by (nonlinear_arith)
        requires
            big_q == nn * nn + delta,
    ;
    let sum = d0 + d1;
    let nns = (nn * nn) * sum;
    assert(nns == d0 * (nn * nn) + nn * (nn * d1)) by (nonlinear_arith)
        requires
            nns == (nn * nn) * sum,
            sum == d0 + d1,
    ;
    assert(nn * (r1 + r2 + r3) == nn * (nn * d1) + nn * rho2) by (nonlinear_arith)
        requires
            r1 + r2 + r3 == nn * d1 + rho2,
    ;
    assert(nn * (p1 + p2 + p3 - (t1 + t2 + t3)) == nn * (nn * d0) + nn * rho - nn * (t1 + t2
        + t3)) by (nonlinear_arith)
        requires
            p1 + p2 + p3 == nn * d0 + rho,
    ;
    assert(nn * (nn * d0) == d0 * (nn * nn)) by (nonlinear_arith);
    assert(nns == nn * rho - nn * rho2 - 2 * (d0 * delta) + big_f);
    // Each part is small.
    lemma_product_within(d0, delta, 0x3_0000_0030, 33 * nn);
    lemma_product_within(f1, n.x@, nn, 0x1_0000_0010);
    lemma_product_within(f2, n.y@, nn, 0x1_0000_0010);
    lemma_product_within(f3, n.z@, nn, 0x1_0000_0010);
    lemma_product_within(nn, rho, nn, 3 * nn);
    lemma_product_within(nn, rho2, nn, 3 * nn);
    assert(-(208 * (nn * nn)) < nns < 208 * (nn * nn)) by (nonlinear_arith)
        requires
            nns == nn * rho - nn * rho2 - 2 * (d0 * delta) + big_f,
            -(nn * (3 * nn)) <= nn * rho <= nn * (3 * nn),
            -(nn * (3 * nn)) <= nn * rho2 <= nn * (3 * nn),
            -(0x3_0000_0030 * (33 * nn)) <= d0 * delta <= 0x3_0000_0030 * (33 * nn),
            -(3 * (nn * 0x1_0000_0010)) <= big_f <= 3 * (nn * 0x1_0000_0010),
            nn == 0x1_0000_0000,
    ;
    assert(-207 <= sum <= 207) by (nonlinear_arith)
        requires
            -(208 * (nn * nn)) < (nn * nn) * sum < 208 * (nn * nn),
            nn == 0x1_0000_0000,
    ;
}

/// Mirroring twice gives the vector back. For a vector of the unit cube
/// and a normal of nearly unit length, the vector mirrored twice in the
/// plane of the normal differs from the vector by at most 420 units in the
/// last place in each component.
pub proof fn lemma_reflect_twice(v: Vec3, n: Vec3)
    requires
        in_unit_cube(v),
        is_nearly_unit(n),
    ensures
        differs_by_at_most(
            spec_reflect(spec_reflect(v, n), n),
            v,
            MIRROR_TOLERANCE_RAW as int,
        ),
{
    let nn = ONE_RAW as int;
    lemma_dot_products_cancel(v, n);
    lemma_reflect_spelt_out(v, n);
    let w = spec_reflect(v, n);
    lemma_reflect_spelt_out(w, n);
    let d0 = rounded_dot(v, n);
    let d1 = rounded_dot(w, n);
    lemma_rounded(n.x@ * (2 * d0));
    lemma_rounded(n.y@ * (2 * d0));
    lemma_rounded(n.z@ * (2 * d0));
    lemma_rounded(n.x@ * (2 * d1));
    lemma_rounded(n.y@ * (2 * d1));
    lemma_rounded(n.z@ * (2 * d1));
    lemma_little_is_taken(
        n.x@,
        d0,
        d1,
        rounded(n.x@ * (2 * d0)),
        rounded(n.x@ * (2 * d1)),
        nn,
    );
    lemma_little_is_taken(
        n.y@,
        d0,
        d1,
        rounded(n.y@ * (2 * d0)),
        rounded(n.y@ * (2 * d1)),
        nn,
    );
    lemma_little_is_taken(
        n.z@,
        d0,
        d1,
        rounded(n.z@ * (2 * d0)),
        rounded(n.z@ * (2 * d1)),
        nn,
    );
}

} // verus!
