//! How near to one the length of a normalised vector is.

use crate::fixed::{int_sqrt, is_int_sqrt, lemma_int_sqrt_exists, trunc_div, Fixed, MAX_RAW, ONE_RAW};
use crate::vec3::{is_nearly_unit, spec_unit_vector, Vec3, MIN_LENGTH_SQUARED_RAW};
use vstd::prelude::*;

verus! {

/// The magnitude of `a`.
pub open spec fn magnitude(a: int) -> int {
    if a >= 0 {
        a
    } else {
        -a
    }
}

/// A quotient rounded toward zero, times the divisor, falls short of the
/// dividend by less than the divisor, in magnitude.
pub proof fn lemma_trunc_div_remainder(a: int, d: int)
    requires
        d > 0,
    ensures
        magnitude(trunc_div(a, d)) * d <= magnitude(a) < magnitude(trunc_div(a, d)) * d + d,
{
    let m = magnitude(a);
    vstd::arithmetic::div_mod::lemma_fundamental_div_mod(m, d);
    vstd::arithmetic::div_mod::lemma_div_pos_is_pos(m, d);
    assert(magnitude(trunc_div(a, d)) == m / d);
    assert(d * (m / d) == (m / d) * d) by (nonlinear_arith);
}

/// The square of a quotient rounded toward zero, times the square of the
/// divisor, lies between the square of the dividend less twice the
/// magnitude of the dividend times the divisor, and the square of the
/// dividend.
pub proof fn lemma_trunc_div_square(a: int, d: int)
    requires
        d > 0,
    ensures
        a * a - 2 * magnitude(a) * d <= trunc_div(a, d) * trunc_div(a, d) * (d * d) <= a * a,
{
    lemma_trunc_div_remainder(a, d);
    let m = magnitude(a);
    let y = magnitude(trunc_div(a, d));
    assert(trunc_div(a, d) * trunc_div(a, d) == y * y) by (nonlinear_arith)
        requires
            y == trunc_div(a, d) || y == -trunc_div(a, d),
    ;
    assert(a * a == m * m) by (nonlinear_arith)
        requires
            m == a || m == -a,
    ;
    assert(y * y * (d * d) <= m * m) by (nonlinear_arith)
        requires
            0 <= y * d <= m,
    ;
    assert(m * m - 2 * m * d <= y * y * (d * d)) by (nonlinear_arith)
        requires
            0 <= y,
            0 <= m < y * d + d,
            d > 0,
    ;
}

/// The square of a number is at most the sum of its square and two more.
proof fn lemma_component_within_length(x: int, y: int, z: int, l: int)
    by (nonlinear_arith)
    requires
        0 <= l,
        x * x + y * y + z * z < (l + 1) * (l + 1),
    ensures
        -l <= x <= l,
{
}

/// The vector `v` divided by its length has a length of nearly one,
/// provided that the length of `v` is at least one sixteenth and within
/// the range of the numbers.
pub proof fn lemma_unit_vector_is_nearly_unit(v: Vec3)
    requires
        ONE_RAW / 16 <= int_sqrt(v.spec_raw_norm_squared()) <= MAX_RAW,
    ensures
        is_nearly_unit(spec_unit_vector(v)),
{
    let n = ONE_RAW as int;
    let s = v.spec_raw_norm_squared();
    assert(s >= 0) by (nonlinear_arith)
        requires
            s == v.x@ * v.x@ + v.y@ * v.y@ + v.z@ * v.z@,
    ;
    lemma_int_sqrt_exists(s);
    let l = int_sqrt(s);
    assert(is_int_sqrt(s, l));
    let length = v.spec_length();
    assert(length@ == l);
    lemma_component_within_length(v.x@, v.y@, v.z@, l);
    lemma_component_within_length(v.y@, v.z@, v.x@, l);
    lemma_component_within_length(v.z@, v.x@, v.y@, l);
    let qx = trunc_div(v.x@ * n, l);
    let qy = trunc_div(v.y@ * n, l);
    let qz = trunc_div(v.z@ * n, l);
    lemma_quotient_within_one(v.x@, l);
    lemma_quotient_within_one(v.y@, l);
    lemma_quotient_within_one(v.z@, l);
    let u = spec_unit_vector(v);
    assert(u.x@ == qx && u.y@ == qy && u.z@ == qz);
    lemma_trunc_div_square(v.x@ * n, l);
    lemma_trunc_div_square(v.y@ * n, l);
    lemma_trunc_div_square(v.z@ * n, l);
    let total = qx * qx + qy * qy + qz * qz;
    let ll = l * l;
    let nn = n * n;
    let ax = (v.x@ * n) * (v.x@ * n);
    let ay = (v.y@ * n) * (v.y@ * n);
    let az = (v.z@ * n) * (v.z@ * n);
    lemma_square_of_product(v.x@, n);
    lemma_square_of_product(v.y@, n);
    lemma_square_of_product(v.z@, n);
    lemma_three_products(qx * qx, qy * qy, qz * qz, ll);
    lemma_three_products(v.x@ * v.x@, v.y@ * v.y@, v.z@ * v.z@, nn);
    assert(total * ll == qx * qx * ll + qy * qy * ll + qz * qz * ll);
    assert(s * nn == ax + ay + az);
    assert(nn * s == s * nn) by (nonlinear_arith);
    // From above: the squares of the quotients do not exceed those of the exact quotients.
    assert(total * ll <= nn * s);
    assert(nn * s < (nn + 33 * n) * ll) by (nonlinear_arith)
        requires
            s < (l + 1) * (l + 1),
            ll == l * l,
            nn == n * n,
            l >= 0x1000_0000,
            n == 0x1_0000_0000,
    ;
    assert(ll > 0) by (nonlinear_arith)
        requires
            ll == l * l,
            l >= 0x1000_0000,
    ;
    assert(total < nn + 33 * n) by (nonlinear_arith)
        requires
            total * ll < (nn + 33 * n) * ll,
            ll > 0,
    ;
    // From below: each quotient falls short of the exact quotient by less than one.
    lemma_shortfall(v.x@ * n, l, n);
    lemma_shortfall(v.y@ * n, l, n);
    lemma_shortfall(v.z@ * n, l, n);
    let nll = n * ll;
    assert(nn * s - 6 * nll <= total * ll);
    assert((nn - 6 * n) * ll <= nn * s - 6 * nll) by (nonlinear_arith)
        requires
            ll <= s,
            nn >= 0,
            nll == n * ll,
    ;
    assert(nn - 6 * n <= total) by (nonlinear_arith)
        requires
            (nn - 6 * n) * ll <= total * ll,
            ll > 0,
    ;
}

/// The square of a product is the product of the squares.
proof fn lemma_square_of_product(x: int, n: int)
    by (nonlinear_arith)
    ensures
        (x * n) * (x * n) == (x * x) * (n * n),
{
}

/// A sum of three times a number is the sum of the three products.
proof fn lemma_three_products(a: int, b: int, c: int, k: int)
    by (nonlinear_arith)
    ensures
        (a + b + c) * k == a * k + b * k + c * k,
{
}

/// Twice a magnitude of at most `l·n`, times `l`, is at most `2·n·l²`.
proof fn lemma_shortfall(a: int, l: int, n: int)
    by (nonlinear_arith)
    requires
        magnitude(a) <= l * n,
        l > 0,
        n > 0,
    ensures
        2 * magnitude(a) * l <= 2 * (n * (l * l)),
{
}

/// A component of magnitude at most `l`, divided by `l`, is at most one
/// in magnitude.
proof fn lemma_quotient_within_one(x: int, l: int)
    requires
        l > 0,
        -l <= x <= l,
    ensures
        -(ONE_RAW as int) <= trunc_div(x * ONE_RAW, l) <= ONE_RAW,
        magnitude(x * ONE_RAW) <= l * ONE_RAW,
{
    let n = ONE_RAW as int;
    lemma_trunc_div_remainder(x * n, l);
    assert(magnitude(x * n) <= l * n) by (nonlinear_arith)
        requires
            -l <= x <= l,
            n > 0,
    ;
    let y = magnitude(trunc_div(x * n, l));
    assert(y <= n) by (nonlinear_arith)
        requires
            y * l <= l * n,
            l > 0,
    ;
}

/// The direction of a point whose squared length lies above `1/256` has a
/// length of nearly one.
pub proof fn lemma_direction_is_nearly_unit(p: Vec3)
    requires
        MIN_LENGTH_SQUARED_RAW < p.spec_length_squared()@ <= ONE_RAW,
    ensures
        is_nearly_unit(spec_unit_vector(p)),
{
    let n = ONE_RAW as int;
    let s = p.spec_raw_norm_squared();
    lemma_squared_length_below_norm(p);
    assert(s >= 0x1000_0000 * 0x1000_0000) by (nonlinear_arith)
        requires
            s >= p.spec_length_squared()@ * n,
            p.spec_length_squared()@ > 0x100_0000,
            n == 0x1_0000_0000,
    ;
    assert(s < 0x4_0000_0000int * 0x4_0000_0000int) by (nonlinear_arith)
        requires
            s < (p.spec_length_squared()@ + 3) * n,
            p.spec_length_squared()@ <= 0x1_0000_0000,
            n == 0x1_0000_0000,
    ;
    lemma_int_sqrt_exists(s);
    let l = int_sqrt(s);
    if l < 0x1000_0000 {
        assert((l + 1) * (l + 1) <= 0x1000_0000 * 0x1000_0000) by (nonlinear_arith)
            requires
                0 <= l < 0x1000_0000,
        ;
    }
    if l >= 0x4_0000_0000 {
        assert(l * l >= 0x4_0000_0000int * 0x4_0000_0000int) by (nonlinear_arith)
            requires
                l >= 0x4_0000_0000,
        ;
    }
    lemma_unit_vector_is_nearly_unit(p);
}

/// The squared length, which is rounded, is not above the exact squared
/// length and less than three units in the last place below it, where it
/// is in range.
pub proof fn lemma_squared_length_below_norm(p: Vec3)
    requires
        p.spec_length_squared()@ < MAX_RAW,
    ensures
        p.spec_length_squared()@ * ONE_RAW <= p.spec_raw_norm_squared() < (
        p.spec_length_squared()@ + 3) * ONE_RAW,
{
    let n = ONE_RAW as int;
    let xx = p.x.spec_mul(p.x);
    let yy = p.y.spec_mul(p.y);
    let zz = p.z.spec_mul(p.z);
    lemma_square_rounds_down(p.x);
    lemma_square_rounds_down(p.y);
    lemma_square_rounds_down(p.z);
    assert(xx@ >= 0 && yy@ >= 0 && zz@ >= 0);
    assert(xx@ < MAX_RAW && yy@ < MAX_RAW && zz@ < MAX_RAW);
    assert(p.spec_length_squared()@ == xx@ + yy@ + zz@);
    assert((xx@ + yy@ + zz@) * n == xx@ * n + yy@ * n + zz@ * n) by (nonlinear_arith);
    assert((xx@ + yy@ + zz@ + 3) * n == xx@ * n + yy@ * n + zz@ * n + 3 * n) by (nonlinear_arith);
}

/// The rounded square of a number is not negative, and where it is in
/// range it is not above the exact square and less than one unit in the
/// last place below it.
proof fn lemma_square_rounds_down(x: Fixed)
    ensures
        x.spec_mul(x)@ >= 0,
        x.spec_mul(x)@ < MAX_RAW ==> x.spec_mul(x)@ * ONE_RAW <= x@ * x@ < (x.spec_mul(x)@ + 1)
            * ONE_RAW,
{
    let n = ONE_RAW as int;
    let a = x@ * x@;
    assert(a >= 0) by (nonlinear_arith)
        requires
            a == x@ * x@,
    ;
    vstd::arithmetic::div_mod::lemma_fundamental_div_mod(a, n);
    vstd::arithmetic::div_mod::lemma_div_pos_is_pos(a, n);
    assert(n * (a / n) == (a / n) * n) by (nonlinear_arith);
    assert(((a / n) + 1) * n == (a / n) * n + n) by (nonlinear_arith);
}

/// The components of a vector divided by its length, spelt out: each
/// component times one, divided by the length and rounded toward zero. They
/// are at most one in magnitude. The length must be positive and within
/// the range of the numbers.
pub proof fn lemma_unit_vector_components(v: Vec3)
    requires
        0 < int_sqrt(v.spec_raw_norm_squared()) <= MAX_RAW,
    ensures
        spec_unit_vector(v).x@ == trunc_div(
            v.x@ * ONE_RAW,
            int_sqrt(v.spec_raw_norm_squared()),
        ),
        spec_unit_vector(v).y@ == trunc_div(
            v.y@ * ONE_RAW,
            int_sqrt(v.spec_raw_norm_squared()),
        ),
        spec_unit_vector(v).z@ == trunc_div(
            v.z@ * ONE_RAW,
            int_sqrt(v.spec_raw_norm_squared()),
        ),
        -(ONE_RAW as int) <= spec_unit_vector(v).x@ <= ONE_RAW,
        -(ONE_RAW as int) <= spec_unit_vector(v).y@ <= ONE_RAW,
        -(ONE_RAW as int) <= spec_unit_vector(v).z@ <= ONE_RAW,
        -int_sqrt(v.spec_raw_norm_squared()) <= v.x@ <= int_sqrt(v.spec_raw_norm_squared()),
        -int_sqrt(v.spec_raw_norm_squared()) <= v.y@ <= int_sqrt(v.spec_raw_norm_squared()),
        -int_sqrt(v.spec_raw_norm_squared()) <= v.z@ <= int_sqrt(v.spec_raw_norm_squared()),
{
    let s = v.spec_raw_norm_squared();
    assert(s >= 0) by (nonlinear_arith)
        requires
            s == v.x@ * v.x@ + v.y@ * v.y@ + v.z@ * v.z@,
    ;
    lemma_int_sqrt_exists(s);
    let l = int_sqrt(s);
    lemma_component_within_length(v.x@, v.y@, v.z@, l);
    lemma_component_within_length(v.y@, v.z@, v.x@, l);
    lemma_component_within_length(v.z@, v.x@, v.y@, l);
    lemma_quotient_within_one(v.x@, l);
    lemma_quotient_within_one(v.y@, l);
    lemma_quotient_within_one(v.z@, l);
}

} // verus!
