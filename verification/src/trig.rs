//! Angles on fixed-point numbers: sine and cosine, the two inverse functions
//! that the sphere's surface coordinates need, and the natural logarithm.
//!
//! Each function reduces its argument to a short range by the usual
//! symmetries and sums a power series there. The contracts state the sum
//! that is computed and the range in which the result lies.

use crate::fixed::{Fixed, ONE_RAW, PI_RAW};
use vstd::prelude::*;

verus! {

/// Raw value of 2π.
pub const TWO_PI_RAW: i64 = 26_986_075_409;

/// Raw value of π/2.
pub const HALF_PI_RAW: i64 = 6_746_518_852;

/// Raw value of π/4.
pub const QUARTER_PI_RAW: i64 = 3_373_259_426;

/// Raw value of tan(π/8) = √2 - 1.
pub const TAN_PI_8_RAW: i64 = 1_779_033_704;

/// Raw value of ln 2.
pub const LN_2_RAW: i64 = 2_977_044_472;

/// Number of terms summed for sine and cosine.
pub const CIRCULAR_TERMS: u32 = 9;

/// Number of terms summed for the inverse tangent and the logarithm.
pub const RECIPROCAL_TERMS: u32 = 13;

/// The tail `s(k)` of the nested sum `s(k) = 1 - x2·s(k+1) / ((2k-2+first)·(2k-1+first))`
/// with `s(terms + 1) = 1`. With `first = 1` the sum `s(1)` is the cosine
/// series in `x2 = x²`, with `first = 2` it is the sine series divided by `x`.
pub open spec fn spec_circular_series(x2: Fixed, first: u32, k: u32, terms: u32) -> Fixed
    decreases terms + 1 - k,
{
    if k > terms || terms > 64 || first > 2 {
        Fixed::one()
    } else {
        let d = Fixed::from_int(((2 * k - 2 + first) * (2 * k - 1 + first)) as i32);
        Fixed::one().sub(x2.mul(spec_circular_series(x2, first, (k + 1) as u32, terms)).div(d))
    }
}

fn circular_series(x2: Fixed, first: u32) -> (r: Fixed)
    requires
        1 <= first <= 2,
    ensures
        r == spec_circular_series(x2, first, 1, CIRCULAR_TERMS),
{
    let mut acc = Fixed::one();
    let mut k: u32 = CIRCULAR_TERMS;
    while k > 0
        invariant
            k <= CIRCULAR_TERMS,
            1 <= first <= 2,
            acc == spec_circular_series(x2, first, (k + 1) as u32, CIRCULAR_TERMS),
        decreases k,
    {
        let low: u32 = 2 * k - 2 + first;
        assert(low * (low + 1) <= 380) by (nonlinear_arith)
            requires
                low <= 18,
        ;
        let d = Fixed::from_int((low * (low + 1)) as i32);
        acc = Fixed::one().sub(x2.mul(acc).div(d));
        k -= 1;
    }
    acc
}

/// The tail `s(k)` of the sum `s(k) = 1/(2k+1) ± z2·s(k+1)` with
/// `s(terms) = 0`: minus where `alternate` holds. In `z2 = z²`, `z·s(0)` is
/// the series of the inverse tangent where the signs alternate and of the
/// inverse hyperbolic tangent where they do not.
pub open spec fn spec_reciprocal_series(z2: Fixed, alternate: bool, k: u32, terms: u32) -> Fixed
    decreases terms - k,
{
    if k >= terms || terms > 64 {
        Fixed::zero()
    } else {
        let c = Fixed::one().div(Fixed::from_int((2 * k + 1) as i32));
        let rest = z2.mul(spec_reciprocal_series(z2, alternate, (k + 1) as u32, terms));
        if alternate {
            c.sub(rest)
        } else {
            c.add(rest)
        }
    }
}

fn reciprocal_series(z2: Fixed, alternate: bool) -> (r: Fixed)
    ensures
        r == spec_reciprocal_series(z2, alternate, 0, RECIPROCAL_TERMS),
{
    let mut acc = Fixed::zero();
    let mut k: u32 = RECIPROCAL_TERMS;
    while k > 0
        invariant
            k <= RECIPROCAL_TERMS,
            acc == spec_reciprocal_series(z2, alternate, k, RECIPROCAL_TERMS),
        decreases k,
    {
        k -= 1;
        let c = Fixed::one().div(Fixed::from_int((2 * k + 1) as i32));
        let rest = z2.mul(acc);
        acc = if alternate {
            c.sub(rest)
        } else {
            c.add(rest)
        };
    }
    acc
}

/// `x` limited to `[-bound, bound]`, for `bound >= 0`.
pub open spec fn spec_limit(x: Fixed, bound: Fixed) -> Fixed {
    if x@ > bound@ {
        bound
    } else if x@ < -bound@ {
        bound.neg()
    } else {
        x
    }
}

fn limit(x: Fixed, bound: Fixed) -> (r: Fixed)
    requires
        0 <= bound@,
    ensures
        r == spec_limit(x, bound),
        -bound@ <= r@ <= bound@,
{
    if x.raw > bound.raw {
        bound
    } else if x.raw < -bound.raw {
        bound.neg()
    } else {
        x
    }
}

/// The angle of `[-π, π)` that differs from `angle` by a whole number of
/// turns.
pub open spec fn spec_wrap_angle(angle: Fixed) -> Fixed {
    Fixed { raw: ((angle@ + PI_RAW) % (TWO_PI_RAW as int) - PI_RAW) as i64 }
}

fn wrap_angle(angle: Fixed) -> (r: Fixed)
    ensures
        r == spec_wrap_angle(angle),
        -PI_RAW <= r@ < TWO_PI_RAW - PI_RAW,
{
    let shifted: i128 = angle.raw as i128 + PI_RAW as i128;
    let turn: i128 = TWO_PI_RAW as i128;
    let rem: i128 = if shifted >= 0 {
        shifted % turn
    } else {
        let back: i128 = (-shifted) % turn;
        if back == 0 {
            0
        } else {
            turn - back
        }
    };
    assert(rem == (angle@ + PI_RAW) % (TWO_PI_RAW as int)) by {
        if shifted < 0 {
            vstd::arithmetic::div_mod::lemma_fundamental_div_mod(-(shifted as int), turn as int);
            let q = (-(shifted as int)) / (turn as int);
            let back = (-(shifted as int)) % (turn as int);
            if back == 0 {
                assert(shifted as int == (turn as int) * (-q) + 0);
                vstd::arithmetic::div_mod::lemma_fundamental_div_mod_converse(
                    shifted as int,
                    turn as int,
                    -q,
                    0,
                );
            } else {
                assert(shifted as int == (turn as int) * (-q - 1) + (turn - back)) by (nonlinear_arith)
                    requires
                        -(shifted as int) == (turn as int) * q + back,
                ;
                vstd::arithmetic::div_mod::lemma_fundamental_div_mod_converse(
                    shifted as int,
                    turn as int,
                    -q - 1,
                    turn - back,
                );
            }
        }
    }
    Fixed { raw: (rem - PI_RAW as i128) as i64 }
}

/// Sine and cosine of an angle of `[0, π/2]`, each the sum of its series
/// limited to `[-1, 1]`.
pub open spec fn spec_sin_cos_first_quadrant(x: Fixed) -> (Fixed, Fixed) {
    let x2 = x.mul(x);
    (
        spec_limit(x.mul(spec_circular_series(x2, 2, 1, CIRCULAR_TERMS)), Fixed::one()),
        spec_limit(spec_circular_series(x2, 1, 1, CIRCULAR_TERMS), Fixed::one()),
    )
}

/// Sine and cosine of `angle`, in radians: the angle is wrapped to
/// `[-π, π)`, mirrored into `[0, π/2]`, and the signs are put back.
pub open spec fn spec_sin_cos(angle: Fixed) -> (Fixed, Fixed) {
    let a = spec_wrap_angle(angle);
    let b = a.abs();
    let mirrored = b@ > HALF_PI_RAW;
    let x = if mirrored {
        Fixed { raw: PI_RAW }.sub(b)
    } else {
        b
    };
    let (s, c) = spec_sin_cos_first_quadrant(x);
    (
        if a@ < 0 {
            s.neg()
        } else {
            s
        },
        if mirrored {
            c.neg()
        } else {
            c
        },
    )
}

/// Sine and cosine of `angle`, in radians.
pub fn sin_cos(angle: Fixed) -> (r: (Fixed, Fixed))
    ensures
        r == spec_sin_cos(angle),
        -ONE_RAW <= r.0@ <= ONE_RAW,
        -ONE_RAW <= r.1@ <= ONE_RAW,
{
    let a = wrap_angle(angle);
    let b = a.abs();
    let mirrored = b.raw > HALF_PI_RAW;
    let x = if mirrored {
        Fixed { raw: PI_RAW }.sub(b)
    } else {
        b
    };
    let x2 = x.mul(x);
    let s = limit(x.mul(circular_series(x2, 2)), Fixed::one());
    let c = limit(circular_series(x2, 1), Fixed::one());
    (
        if a.raw < 0 {
            s.neg()
        } else {
            s
        },
        if mirrored {
            c.neg()
        } else {
            c
        },
    )
}

/// The tangent: sine over cosine.
pub open spec fn spec_tan(angle: Fixed) -> Fixed {
    spec_sin_cos(angle).0.div(spec_sin_cos(angle).1)
}

#[verifier::when_used_as_spec(spec_tan)]
pub fn tan(angle: Fixed) -> (r: Fixed)
    ensures
        r == spec_tan(angle),
{
    let (s, c) = sin_cos(angle);
    s.div(c)
}

/// The angle in radians of `degrees`: `degrees · π / 180`.
pub open spec fn spec_degrees_to_radians(degrees: Fixed) -> Fixed {
    degrees.mul(Fixed { raw: PI_RAW }).div(Fixed::from_int(180))
}

#[verifier::when_used_as_spec(spec_degrees_to_radians)]
pub fn degrees_to_radians(degrees: Fixed) -> (r: Fixed)
    ensures
        r == spec_degrees_to_radians(degrees),
{
    degrees.mul(Fixed { raw: PI_RAW }).div(Fixed::from_int(180))
}

/// The inverse tangent of a number of `[0, 1]`: above `tan(π/8)` the
/// argument `z` is replaced by `(z - 1) / (z + 1)` and `π/4` is added.
pub open spec fn spec_atan_unit(z: Fixed) -> Fixed {
    if z@ > TAN_PI_8_RAW {
        let w = z.sub(Fixed::one()).div(z.add(Fixed::one()));
        Fixed { raw: QUARTER_PI_RAW }.add(
            w.mul(spec_reciprocal_series(w.mul(w), true, 0, RECIPROCAL_TERMS)),
        )
    } else {
        z.mul(spec_reciprocal_series(z.mul(z), true, 0, RECIPROCAL_TERMS))
    }
}

fn atan_unit(z: Fixed) -> (r: Fixed)
    ensures
        r == spec_atan_unit(z),
{
    if z.raw > TAN_PI_8_RAW {
        let w = z.sub(Fixed::one()).div(z.add(Fixed::one()));
        Fixed { raw: QUARTER_PI_RAW }.add(w.mul(reciprocal_series(w.mul(w), true)))
    } else {
        z.mul(reciprocal_series(z.mul(z), true))
    }
}

/// The angle of the point `(x, y)` from the positive x axis, in `[-π, π]`;
/// zero for the origin. The smaller of `|x|`, `|y|` is divided by the
/// larger, the inverse tangent of the quotient is limited to `[0, π/2]` and
/// carried to the point's quadrant.
pub open spec fn spec_atan2(y: Fixed, x: Fixed) -> Fixed {
    let ax = x.abs();
    let ay = y.abs();
    if ax@ == 0 && ay@ == 0 {
        Fixed::zero()
    } else {
        let first = if ay@ <= ax@ {
            spec_atan_unit(ay.div(ax))
        } else {
            Fixed { raw: HALF_PI_RAW }.sub(spec_atan_unit(ax.div(ay)))
        };
        let acute = spec_limit(
            first.sub(Fixed { raw: QUARTER_PI_RAW }),
            Fixed { raw: QUARTER_PI_RAW },
        ).add(Fixed { raw: QUARTER_PI_RAW });
        let upper = if x@ < 0 {
            Fixed { raw: PI_RAW }.sub(acute)
        } else {
            acute
        };
        if y@ < 0 {
            upper.neg()
        } else {
            upper
        }
    }
}

#[verifier::when_used_as_spec(spec_atan2)]
pub fn atan2(y: Fixed, x: Fixed) -> (r: Fixed)
    ensures
        r == spec_atan2(y, x),
        -PI_RAW <= r@ <= PI_RAW,
        y@ >= 0 ==> r@ >= 0,
{
    let ax = x.abs();
    let ay = y.abs();
    if ax.raw == 0 && ay.raw == 0 {
        Fixed::zero()
    } else {
        let first = if ay.raw <= ax.raw {
            atan_unit(ay.div(ax))
        } else {
            Fixed { raw: HALF_PI_RAW }.sub(atan_unit(ax.div(ay)))
        };
        let acute = limit(
            first.sub(Fixed { raw: QUARTER_PI_RAW }),
            Fixed { raw: QUARTER_PI_RAW },
        ).add(Fixed { raw: QUARTER_PI_RAW });
        let upper = if x.raw < 0 {
            Fixed { raw: PI_RAW }.sub(acute)
        } else {
            acute
        };
        if y.raw < 0 {
            upper.neg()
        } else {
            upper
        }
    }
}

/// The angle of `[0, π]` whose cosine is `c`, for `c` limited to `[-1, 1]`:
/// the angle of the point `(c, √(1 - c²))`.
pub open spec fn spec_acos(c: Fixed) -> Fixed {
    let cl = spec_limit(c, Fixed::one());
    spec_atan2(Fixed::one().sub(cl.mul(cl)).sqrt(), cl)
}

#[verifier::when_used_as_spec(spec_acos)]
pub fn acos(c: Fixed) -> (r: Fixed)
    ensures
        r == spec_acos(c),
        0 <= r@ <= PI_RAW,
{
    let cl = limit(c, Fixed::one());
    let s = Fixed::one().sub(cl.mul(cl)).sqrt();
    proof {
        crate::fixed::lemma_sqrt_nonnegative(Fixed::one().sub(cl.mul(cl)));
    }
    atan2(s, cl)
}

/// What is left of `m` after halving it until it is below two or `count`
/// has reached 31, with the number of halvings added to `count`.
pub open spec fn spec_halvings(m: int, count: int) -> (int, int)
    decreases 31 - count,
{
    if m >= 0x2_0000_0000 && count < 31 {
        spec_halvings(m / 2, count + 1)
    } else {
        (m, count)
    }
}

/// What `m` becomes by doubling it until it is at least one or `count` has
/// reached 32, with the number of doublings added to `count`.
pub open spec fn spec_doublings(m: int, count: int) -> (int, int)
    decreases 32 - count,
{
    if m < 0x1_0000_0000 && count < 32 {
        spec_doublings(2 * m, count + 1)
    } else {
        (m, count)
    }
}

/// The natural logarithm of `x`; `-∞` for `x <= 0`. With `x = m·2^e` and
/// `1 <= m < 2`, the result is `e·ln 2 + 2·z·s` where `z = (m-1)/(m+1)` and
/// `s` sums the series of the inverse hyperbolic tangent in `z²`.
pub open spec fn spec_ln(x: Fixed) -> Fixed {
    if x@ <= 0 {
        Fixed::neg_infinity()
    } else {
        let (halved, up) = spec_halvings(x@, 0);
        let (m, down) = spec_doublings(halved, 0);
        let e = up - down;
        let mant = Fixed { raw: m as i64 };
        let z = mant.sub(Fixed::one()).div(mant.add(Fixed::one()));
        let series = z.mul(spec_reciprocal_series(z.mul(z), false, 0, RECIPROCAL_TERMS));
        Fixed::spec_from_raw(e * LN_2_RAW).add(Fixed::from_int(2).mul(series))
    }
}

#[verifier::when_used_as_spec(spec_ln)]
pub fn ln(x: Fixed) -> (r: Fixed)
    ensures
        r == spec_ln(x),
{
    if x.raw <= 0 {
        return Fixed::neg_infinity();
    }
    let mut m: i64 = x.raw;
    let mut up: i64 = 0;
    while m >= 0x2_0000_0000 && up < 31
        invariant
            0 < m <= x.raw,
            0 <= up <= 31,
            spec_halvings(m as int, up as int) == spec_halvings(x@, 0),
        decreases 31 - up,
    {
        m = m / 2;
        up += 1;
    }
    let ghost halved = m;
    let mut down: i64 = 0;
    while m < 0x1_0000_0000 && down < 32
        invariant
            0 < m,
            m < 0x2_0000_0000 || down == 0,
            0 <= down <= 32,
            spec_doublings(m as int, down as int) == spec_doublings(halved as int, 0),
        decreases 32 - down,
    {
        m = 2 * m;
        down += 1;
    }
    let e: i64 = up - down;
    let mant = Fixed { raw: m };
    let z = mant.sub(Fixed::one()).div(mant.add(Fixed::one()));
    let series = z.mul(reciprocal_series(z.mul(z), false));
    proof {
        assert(-64 * LN_2_RAW <= e * LN_2_RAW <= 64 * LN_2_RAW) by (nonlinear_arith)
            requires
                -64 <= e <= 64,
                LN_2_RAW > 0,
        ;
    }
    Fixed::from_raw(e * LN_2_RAW).add(Fixed::from_int(2).mul(series))
}

} // verus!
