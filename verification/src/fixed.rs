//! Fixed-point scalars.
//!
//! Every quantity of the tracer (coordinates, ray parameters, colours,
//! densities) is a [`Fixed`]: a signed 64-bit integer `raw` that stands for
//! the number `raw / 2^32`. Arithmetic is exact integer arithmetic on the raw
//! values, rounded toward zero where a quotient is taken and saturated at
//! `±MAX_RAW`, so every operation is total. The two extreme values double as
//! `+∞` and `-∞` for open ray windows and empty boxes.

use vstd::prelude::*;

verus! {

/// Raw value of the number one.
pub const ONE_RAW: i64 = 0x1_0000_0000;

/// Largest raw magnitude; arithmetic saturates here.
pub const MAX_RAW: i64 = 0x7fff_ffff_ffff_ffff;

/// Raw value of π, rounded to the nearest representable number.
pub const PI_RAW: i64 = 13_493_037_705;

/// A fixed-point number with 32 fractional bits.
#[derive(Clone, Copy, Debug, PartialEq, Eq, Structural)]
pub struct Fixed {
    pub raw: i64,
}

impl View for Fixed {
    type V = int;

    open spec fn view(&self) -> int {
        self.raw as int
    }
}

/// `x` clamped to the representable raw range `[-MAX_RAW, MAX_RAW]`.
pub open spec fn saturate(x: int) -> int {
    if x > MAX_RAW {
        MAX_RAW as int
    } else if x < -MAX_RAW {
        -(MAX_RAW as int)
    } else {
        x
    }
}

/// Quotient of `a` by `b` rounded toward zero, for `b != 0`.
pub open spec fn trunc_div(a: int, b: int) -> int {
    if b > 0 {
        if a >= 0 {
            a / b
        } else {
            -((-a) / b)
        }
    } else {
        if a <= 0 {
            (-a) / (-b)
        } else {
            -(a / (-b))
        }
    }
}

/// `r` is the integer square root of `n`: the largest integer whose square
/// does not exceed `n`.
pub open spec fn is_int_sqrt(n: int, r: int) -> bool {
    0 <= r && r * r <= n < (r + 1) * (r + 1)
}

/// The integer square root of `n`, for `n >= 0`.
pub closed spec fn int_sqrt(n: int) -> int {
    choose|r: int| is_int_sqrt(n, r)
}

/// Two integer square roots of one number are equal.
pub proof fn lemma_int_sqrt_unique(n: int, r1: int, r2: int)
    requires
        is_int_sqrt(n, r1),
        is_int_sqrt(n, r2),
    ensures
        r1 == r2,
{
    if r1 < r2 {
        assert((r1 + 1) * (r1 + 1) <= r2 * r2) by (nonlinear_arith)
            requires
                0 <= r1,
                r1 + 1 <= r2,
        ;
    } else if r2 < r1 {
        assert((r2 + 1) * (r2 + 1) <= r1 * r1) by (nonlinear_arith)
            requires
                0 <= r2,
                r2 + 1 <= r1,
        ;
    }
}

/// Any witness of `is_int_sqrt` is the value of `int_sqrt`.
pub proof fn lemma_int_sqrt_is(n: int, r: int)
    requires
        is_int_sqrt(n, r),
    ensures
        int_sqrt(n) == r,
{
    let c = choose|c: int| is_int_sqrt(n, c);
    assert(is_int_sqrt(n, c));
    lemma_int_sqrt_unique(n, c, r);
}

/// Rounding a quotient toward zero keeps the order of the dividends, for a
/// positive divisor.
pub proof fn lemma_trunc_div_monotone(x: int, y: int, d: int)
    requires
        x <= y,
        d > 0,
    ensures
        trunc_div(x, d) <= trunc_div(y, d),
{
    if x >= 0 {
        vstd::arithmetic::div_mod::lemma_div_is_ordered(x, y, d);
    } else if y >= 0 {
        vstd::arithmetic::div_mod::lemma_div_pos_is_pos(-x, d);
        vstd::arithmetic::div_mod::lemma_div_pos_is_pos(y, d);
    } else {
        vstd::arithmetic::div_mod::lemma_div_is_ordered(-y, -x, d);
    }
}

/// A quotient keeps the order of the dividends, for a divisor that is not
/// negative.
pub proof fn lemma_div_monotone(x: Fixed, y: Fixed, d: Fixed)
    requires
        x@ <= y@,
        d@ >= 0,
    ensures
        x.spec_div(d)@ <= y.spec_div(d)@,
{
    if d@ > 0 {
        assert(x@ * ONE_RAW <= y@ * ONE_RAW) by (nonlinear_arith)
            requires
                x@ <= y@,
                ONE_RAW > 0,
        ;
        lemma_trunc_div_monotone(x@ * ONE_RAW, y@ * ONE_RAW, d@);
    }
}

/// A quotient reverses the order of the dividends, for a negative divisor.
pub proof fn lemma_div_antitone(x: Fixed, y: Fixed, d: Fixed)
    requires
        x@ <= y@,
        d@ < 0,
    ensures
        x.spec_div(d)@ >= y.spec_div(d)@,
{
    assert(x@ * ONE_RAW <= y@ * ONE_RAW) by (nonlinear_arith)
        requires
            x@ <= y@,
            ONE_RAW > 0,
    ;
    let a = x@ * ONE_RAW;
    let b = y@ * ONE_RAW;
    assert(trunc_div(a, d@) == trunc_div(-a, -d@));
    assert(trunc_div(b, d@) == trunc_div(-b, -d@));
    lemma_trunc_div_monotone(-b, -a, -d@);
}

/// A square is not negative.
pub proof fn lemma_square_nonnegative(x: Fixed)
    ensures
        x.spec_mul(x)@ >= 0,
{
    assert(x@ * x@ >= 0) by (nonlinear_arith);
    vstd::arithmetic::div_mod::lemma_div_pos_is_pos(x@ * x@, ONE_RAW as int);
}

/// Every natural number has an integer square root.
pub proof fn lemma_int_sqrt_exists(n: int)
    requires
        n >= 0,
    ensures
        is_int_sqrt(n, int_sqrt(n)),
    decreases n,
{
    if n == 0 {
        assert(is_int_sqrt(0, 0));
    } else {
        lemma_int_sqrt_exists(n - 1);
        let r = int_sqrt(n - 1);
        if n < (r + 1) * (r + 1) {
            assert(is_int_sqrt(n, r));
        } else {
            assert((r + 2) * (r + 2) == (r + 1) * (r + 1) + 2 * r + 3) by (nonlinear_arith);
            assert(is_int_sqrt(n, r + 1));
        }
    }
}

/// The square root is not negative, and below `2^48`.
pub proof fn lemma_sqrt_nonnegative(x: Fixed)
    ensures
        0 <= x.spec_sqrt()@ < 0x1_0000_0000_0000,
{
    if x@ > 0 {
        let n = x@ * ONE_RAW;
        lemma_product_bound(x@, ONE_RAW as int);
        assert(n >= 0) by (nonlinear_arith)
            requires
                n == x@ * ONE_RAW,
                x@ > 0,
        ;
        assert(n < 0x1_0000_0000_0000int * 0x1_0000_0000_0000int) by (nonlinear_arith)
            requires
                n == x@ * ONE_RAW,
                x@ <= 0x7fff_ffff_ffff_ffff,
        ;
        lemma_int_sqrt_exists(n);
        let r = int_sqrt(n);
        if r >= 0x1_0000_0000_0000 {
            assert(r * r >= 0x1_0000_0000_0000int * 0x1_0000_0000_0000int) by (nonlinear_arith)
                requires
                    r >= 0x1_0000_0000_0000,
            ;
        }
    }
}

/// A product changes sign with its second factor.
pub proof fn lemma_mul_neg(x: Fixed, y: Fixed)
    requires
        y.wf(),
    ensures
        x.spec_mul(y.spec_neg()) == x.spec_mul(y).spec_neg(),
{
    assert(x@ * (-y@) == -(x@ * y@)) by (nonlinear_arith);
}

/// A sum changes sign with both its terms.
pub proof fn lemma_add_neg(x: Fixed, y: Fixed)
    requires
        x.wf(),
        y.wf(),
    ensures
        x.spec_neg().spec_add(y.spec_neg()) == x.spec_add(y).spec_neg(),
{
}

/// Zero times zero is zero, and so is a sum of zeros.
pub proof fn lemma_zero_products()
    ensures
        Fixed::spec_zero().spec_mul(Fixed::spec_zero()) == Fixed::spec_zero(),
        Fixed::spec_zero().spec_add(Fixed::spec_zero()) == Fixed::spec_zero(),
{
    assert(0int * 0int == 0) by (nonlinear_arith);
    assert(0int / (ONE_RAW as int) == 0);
}

proof fn lemma_product_bound(a: int, b: int)
    by (nonlinear_arith)
    requires
        -0x8000_0000_0000_0000 <= a <= 0x8000_0000_0000_0000,
        -0x8000_0000_0000_0000 <= b <= 0x8000_0000_0000_0000,
    ensures
        -0x4000_0000_0000_0000_0000_0000_0000_0000 <= a * b
            <= 0x4000_0000_0000_0000_0000_0000_0000_0000,
{
}

fn saturate_wide(x: i128) -> (r: i64)
    ensures
        r == saturate(x as int),
{
    if x > MAX_RAW as i128 {
        MAX_RAW
    } else if x < -(MAX_RAW as i128) {
        -MAX_RAW
    } else {
        x as i64
    }
}

proof fn lemma_square_bound(m: int, top: int)
    by (nonlinear_arith)
    requires
        0 <= m <= top,
    ensures
        0 <= m * m <= top * top,
{
}

/// Integer square root by bisection: the largest `r` with `r * r <= n`.
fn int_sqrt_wide(n: u128) -> (r: u128)
    requires
        n < 0x1_0000_0000_0000_0000_0000_0000,
    ensures
        is_int_sqrt(n as int, r as int),
        r < 0x1_0000_0000_0000,
{
    let mut lo: u128 = 0;
    let mut hi: u128 = 0x1_0000_0000_0000;
    assert(0x1_0000_0000_0000int * 0x1_0000_0000_0000int == 0x1_0000_0000_0000_0000_0000_0000int)
        by (nonlinear_arith);
    while hi - lo > 1
        invariant
            lo < hi <= 0x1_0000_0000_0000,
            lo * lo <= n < hi * hi,
        decreases hi - lo,
    {
        let mid: u128 = lo + (hi - lo) / 2;
        proof {
            lemma_square_bound(mid as int, 0x1_0000_0000_0000);
        }
        if mid * mid <= n {
            lo = mid;
        } else {
            hi = mid;
        }
    }
    lo
}

/// Integer square root of any 128-bit number, by bisection.
pub(crate) fn int_sqrt_full(n: u128) -> (r: u128)
    ensures
        is_int_sqrt(n as int, r as int),
        r < 0x1_0000_0000_0000_0000,
{
    let mut lo: u128 = 0;
    let mut hi: u128 = 0x1_0000_0000_0000_0000;
    assert(0x1_0000_0000_0000_0000int * 0x1_0000_0000_0000_0000int
        == 0x1_0000_0000_0000_0000_0000_0000_0000_0000int) by (nonlinear_arith);
    while hi - lo > 1
        invariant
            lo < hi <= 0x1_0000_0000_0000_0000,
            lo * lo <= n < hi * hi,
        decreases hi - lo,
    {
        let mid: u128 = lo + (hi - lo) / 2;
        proof {
            lemma_square_bound(mid as int, 0xffff_ffff_ffff_ffff);
            assert(0xffff_ffff_ffff_ffffint * 0xffff_ffff_ffff_ffffint
                == 0xffff_ffff_ffff_fffe_0000_0000_0000_0001int) by (nonlinear_arith);
        }
        if mid * mid <= n {
            lo = mid;
        } else {
            hi = mid;
        }
    }
    lo
}

impl Fixed {
    /// The number with raw value `raw`, saturated.
    pub fn from_wide(raw: i128) -> (r: Fixed)
        ensures
            r == Fixed::spec_from_raw(raw as int),
    {
        Fixed { raw: saturate_wide(raw) }
    }

    /// The number zero.
    pub open spec fn spec_zero() -> Fixed {
        Fixed { raw: 0 }
    }

    /// The number one.
    pub open spec fn spec_one() -> Fixed {
        Fixed { raw: ONE_RAW }
    }

    /// The largest value, used as `+∞`.
    pub open spec fn spec_infinity() -> Fixed {
        Fixed { raw: MAX_RAW }
    }

    /// The smallest value that arithmetic produces, used as `-∞`.
    pub open spec fn spec_neg_infinity() -> Fixed {
        Fixed { raw: (-MAX_RAW) as i64 }
    }

    pub open spec fn spec_from_raw(raw: int) -> Fixed {
        Fixed { raw: saturate(raw) as i64 }
    }

    pub open spec fn spec_from_int(n: i32) -> Fixed {
        Fixed::spec_from_raw(n as int * ONE_RAW)
    }

    pub open spec fn spec_from_ratio(num: i32, den: i32) -> Fixed {
        Fixed::spec_from_int(num).spec_div(Fixed::spec_from_int(den))
    }

    pub open spec fn spec_add(self, rhs: Fixed) -> Fixed {
        Fixed::spec_from_raw(self@ + rhs@)
    }

    pub open spec fn spec_sub(self, rhs: Fixed) -> Fixed {
        Fixed::spec_from_raw(self@ - rhs@)
    }

    pub open spec fn spec_neg(self) -> Fixed {
        Fixed::spec_from_raw(-self@)
    }

    pub open spec fn spec_abs(self) -> Fixed {
        if self@ < 0 {
            self.spec_neg()
        } else {
            self
        }
    }

    pub open spec fn spec_mul(self, rhs: Fixed) -> Fixed {
        Fixed::spec_from_raw(trunc_div(self@ * rhs@, ONE_RAW as int))
    }

    /// Quotient rounded toward zero. A zero divisor gives a saturated
    /// quotient with the sign of the dividend, and zero for `0 / 0`.
    pub open spec fn spec_div(self, rhs: Fixed) -> Fixed {
        if rhs@ == 0 {
            if self@ > 0 {
                Fixed::spec_infinity()
            } else if self@ < 0 {
                Fixed::spec_neg_infinity()
            } else {
                Fixed::spec_zero()
            }
        } else {
            Fixed::spec_from_raw(trunc_div(self@ * ONE_RAW, rhs@))
        }
    }

    /// Square root rounded down; zero for a negative argument.
    pub open spec fn spec_sqrt(self) -> Fixed {
        if self@ <= 0 {
            Fixed::spec_zero()
        } else {
            Fixed { raw: int_sqrt(self@ * ONE_RAW) as i64 }
        }
    }

    pub open spec fn spec_min(self, rhs: Fixed) -> Fixed {
        if self@ <= rhs@ {
            self
        } else {
            rhs
        }
    }

    pub open spec fn spec_max(self, rhs: Fixed) -> Fixed {
        if self@ >= rhs@ {
            self
        } else {
            rhs
        }
    }

    /// Largest integer not above the number, as an integer.
    pub open spec fn spec_floor(self) -> int {
        self@ / (ONE_RAW as int)
    }

    #[verifier::when_used_as_spec(spec_zero)]
    pub fn zero() -> (r: Fixed)
        ensures
            r == Fixed::spec_zero(),
    {
        Fixed { raw: 0 }
    }

    #[verifier::when_used_as_spec(spec_one)]
    pub fn one() -> (r: Fixed)
        ensures
            r == Fixed::spec_one(),
    {
        Fixed { raw: ONE_RAW }
    }

    #[verifier::when_used_as_spec(spec_infinity)]
    pub fn infinity() -> (r: Fixed)
        ensures
            r == Fixed::spec_infinity(),
    {
        Fixed { raw: MAX_RAW }
    }

    #[verifier::when_used_as_spec(spec_neg_infinity)]
    pub fn neg_infinity() -> (r: Fixed)
        ensures
            r == Fixed::spec_neg_infinity(),
    {
        Fixed { raw: -MAX_RAW }
    }

    /// The number `raw / 2^32`; `i64::MIN` saturates to `-MAX_RAW`.
    pub fn from_raw(raw: i64) -> (r: Fixed)
        ensures
            r == Fixed::spec_from_raw(raw as int),
    {
        Fixed { raw: saturate_wide(raw as i128) }
    }

    /// The whole number `n`.
    #[verifier::when_used_as_spec(spec_from_int)]
    pub fn from_int(n: i32) -> (r: Fixed)
        ensures
            r == Fixed::spec_from_int(n),
    {
        proof {
            lemma_product_bound(n as int, ONE_RAW as int);
        }
        Fixed { raw: saturate_wide(n as i128 * ONE_RAW as i128) }
    }

    /// The quotient `num / den` of two whole numbers.
    #[verifier::when_used_as_spec(spec_from_ratio)]
    pub fn from_ratio(num: i32, den: i32) -> (r: Fixed)
        ensures
            r == Fixed::spec_from_ratio(num, den),
    {
        Fixed::from_int(num).div(Fixed::from_int(den))
    }

    #[verifier::when_used_as_spec(spec_add)]
    pub fn add(self, rhs: Fixed) -> (r: Fixed)
        ensures
            r == self.spec_add(rhs),
    {
        Fixed { raw: saturate_wide(self.raw as i128 + rhs.raw as i128) }
    }

    #[verifier::when_used_as_spec(spec_sub)]
    pub fn sub(self, rhs: Fixed) -> (r: Fixed)
        ensures
            r == self.spec_sub(rhs),
    {
        Fixed { raw: saturate_wide(self.raw as i128 - rhs.raw as i128) }
    }

    #[verifier::when_used_as_spec(spec_neg)]
    pub fn neg(self) -> (r: Fixed)
        ensures
            r == self.spec_neg(),
    {
        Fixed { raw: saturate_wide(-(self.raw as i128)) }
    }

    #[verifier::when_used_as_spec(spec_abs)]
    pub fn abs(self) -> (r: Fixed)
        ensures
            r == self.spec_abs(),
    {
        if self.raw < 0 {
            self.neg()
        } else {
            self
        }
    }

    #[verifier::when_used_as_spec(spec_mul)]
    pub fn mul(self, rhs: Fixed) -> (r: Fixed)
        ensures
            r == self.spec_mul(rhs),
    {
        proof {
            lemma_product_bound(self@, rhs@);
        }
        let wide: i128 = self.raw as i128 * rhs.raw as i128;
        Fixed { raw: saturate_wide(wide / (ONE_RAW as i128)) }
    }

    #[verifier::when_used_as_spec(spec_div)]
    pub fn div(self, rhs: Fixed) -> (r: Fixed)
        ensures
            r == self.spec_div(rhs),
    {
        if rhs.raw == 0 {
            if self.raw > 0 {
                Fixed::infinity()
            } else if self.raw < 0 {
                Fixed::neg_infinity()
            } else {
                Fixed::zero()
            }
        } else {
            proof {
                lemma_product_bound(self@, ONE_RAW as int);
            }
            let wide: i128 = self.raw as i128 * ONE_RAW as i128;
            if rhs.raw > 0 {
                Fixed { raw: saturate_wide(wide / (rhs.raw as i128)) }
            } else {
                Fixed { raw: saturate_wide((-wide) / (-(rhs.raw as i128))) }
            }
        }
    }

    #[verifier::when_used_as_spec(spec_sqrt)]
    pub fn sqrt(self) -> (r: Fixed)
        ensures
            r == self.spec_sqrt(),
    {
        if self.raw <= 0 {
            Fixed::zero()
        } else {
            proof {
                lemma_product_bound(self@, ONE_RAW as int);
            }
            let n: u128 = self.raw as u128 * ONE_RAW as u128;
            let root: u128 = int_sqrt_wide(n);
            proof {
                lemma_int_sqrt_is(self@ * ONE_RAW, root as int);
            }
            Fixed { raw: root as i64 }
        }
    }

    #[verifier::when_used_as_spec(spec_min)]
    pub fn min(self, rhs: Fixed) -> (r: Fixed)
        ensures
            r == self.spec_min(rhs),
    {
        if self.raw <= rhs.raw {
            self
        } else {
            rhs
        }
    }

    #[verifier::when_used_as_spec(spec_max)]
    pub fn max(self, rhs: Fixed) -> (r: Fixed)
        ensures
            r == self.spec_max(rhs),
    {
        if self.raw >= rhs.raw {
            self
        } else {
            rhs
        }
    }

    /// The whole number `n`, saturated.
    pub open spec fn spec_from_count(n: nat) -> Fixed {
        Fixed::spec_from_raw(n * ONE_RAW)
    }

    pub fn from_count(n: usize) -> (r: Fixed)
        ensures
            r == Fixed::spec_from_count(n as nat),
    {
        if n > 0x7fff_ffff {
            assert(n * ONE_RAW > MAX_RAW) by (nonlinear_arith)
                requires
                    n > 0x7fff_ffff,
                    ONE_RAW == 0x1_0000_0000,
                    MAX_RAW == 0x7fff_ffff_ffff_ffff,
            ;
            Fixed::infinity()
        } else {
            assert(0 <= n * ONE_RAW <= MAX_RAW) by (nonlinear_arith)
                requires
                    0 <= n <= 0x7fff_ffff,
                    ONE_RAW == 0x1_0000_0000,
                    MAX_RAW == 0x7fff_ffff_ffff_ffff,
            ;
            Fixed { raw: n as i64 * ONE_RAW }
        }
    }

    /// The largest whole number not above `self`.
    pub fn floor(self) -> (r: i64)
        ensures
            r == self.spec_floor(),
            -0x8000_0000 <= r < 0x8000_0000,
    {
        if self.raw >= 0 {
            self.raw / ONE_RAW
        } else {
            let below: i64 = -(self.raw + 1);
            -(below / ONE_RAW) - 1
        }
    }

    /// Whether the number lies in the symmetric range `[-MAX_RAW, MAX_RAW]`
    /// that arithmetic produces.
    pub open spec fn wf(self) -> bool {
        -MAX_RAW <= self@
    }
}

} // verus!

