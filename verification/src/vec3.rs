//! Three-component vectors, used for points, directions and colours.

use crate::fixed::{Fixed, ONE_RAW};
use vstd::prelude::*;

verus! {

/// Components below this magnitude count as zero (`1e-8`).
pub const NEAR_ZERO_RAW: i64 = 43;

#[derive(Clone, Copy, Debug, PartialEq, Eq, Structural)]
pub struct Vec3 {
    pub x: Fixed,
    pub y: Fixed,
    pub z: Fixed,
}

/// A position in space.
pub type Point3 = Vec3;

impl Vec3 {
    pub open spec fn spec_new(e0: Fixed, e1: Fixed, e2: Fixed) -> Vec3 {
        Vec3 { x: e0, y: e1, z: e2 }
    }

    pub open spec fn spec_zero() -> Vec3 {
        Vec3 { x: Fixed::zero(), y: Fixed::zero(), z: Fixed::zero() }
    }

    /// Component `i`: 0 is `x`, 1 is `y`, anything else `z`.
    pub open spec fn spec_axis(self, i: usize) -> Fixed {
        if i == 0 {
            self.x
        } else if i == 1 {
            self.y
        } else {
            self.z
        }
    }

    pub open spec fn spec_neg(self) -> Vec3 {
        Vec3 { x: self.x.neg(), y: self.y.neg(), z: self.z.neg() }
    }

    pub open spec fn spec_add(self, rhs: Vec3) -> Vec3 {
        Vec3 { x: self.x.add(rhs.x), y: self.y.add(rhs.y), z: self.z.add(rhs.z) }
    }

    pub open spec fn spec_sub(self, rhs: Vec3) -> Vec3 {
        Vec3 { x: self.x.sub(rhs.x), y: self.y.sub(rhs.y), z: self.z.sub(rhs.z) }
    }

    /// Componentwise product.
    pub open spec fn spec_mul(self, rhs: Vec3) -> Vec3 {
        Vec3 { x: self.x.mul(rhs.x), y: self.y.mul(rhs.y), z: self.z.mul(rhs.z) }
    }

    /// Product with a scalar.
    pub open spec fn spec_scale(self, t: Fixed) -> Vec3 {
        Vec3 { x: self.x.mul(t), y: self.y.mul(t), z: self.z.mul(t) }
    }

    /// Quotient by a scalar.
    pub open spec fn spec_div(self, t: Fixed) -> Vec3 {
        Vec3 { x: self.x.div(t), y: self.y.div(t), z: self.z.div(t) }
    }

    pub open spec fn spec_length_squared(&self) -> Fixed {
        self.x.mul(self.x).add(self.y.mul(self.y)).add(self.z.mul(self.z))
    }

    /// The sum of the squares of the three raw components.
    pub open spec fn spec_raw_norm_squared(&self) -> int {
        self.x@ * self.x@ + self.y@ * self.y@ + self.z@ * self.z@
    }

    /// The length, rounded down. It is worked out from the raw components
    /// without rounding in between, so it is exact to the last place also
    /// where the squared length is out of range.
    pub open spec fn spec_length(&self) -> Fixed {
        Fixed::spec_from_raw(crate::fixed::int_sqrt(self.spec_raw_norm_squared()))
    }

    /// The vector divided by the square of its length, rounded toward zero:
    /// the vector `w` along `self` with `w · self = 1`. It is worked out
    /// from the raw components without rounding in between. For the zero
    /// vector it is zero.
    pub open spec fn spec_inverse(&self) -> Vec3 {
        let s = self.spec_raw_norm_squared();
        if s == 0 {
            *self
        } else {
            Vec3 {
                x: Fixed::spec_from_raw(
                    crate::fixed::trunc_div(self.x@ * 0x1_0000_0000_0000_0000, s),
                ),
                y: Fixed::spec_from_raw(
                    crate::fixed::trunc_div(self.y@ * 0x1_0000_0000_0000_0000, s),
                ),
                z: Fixed::spec_from_raw(
                    crate::fixed::trunc_div(self.z@ * 0x1_0000_0000_0000_0000, s),
                ),
            }
        }
    }

    pub open spec fn spec_near_zero(&self) -> bool {
        &&& self.x.abs()@ < NEAR_ZERO_RAW
        &&& self.y.abs()@ < NEAR_ZERO_RAW
        &&& self.z.abs()@ < NEAR_ZERO_RAW
    }

    #[verifier::when_used_as_spec(spec_new)]
    pub fn new(e0: Fixed, e1: Fixed, e2: Fixed) -> (r: Vec3)
        ensures
            r == Vec3::spec_new(e0, e1, e2),
    {
        Vec3 { x: e0, y: e1, z: e2 }
    }

    #[verifier::when_used_as_spec(spec_zero)]
    pub fn zero() -> (r: Vec3)
        ensures
            r == Vec3::spec_zero(),
    {
        Vec3 { x: Fixed::zero(), y: Fixed::zero(), z: Fixed::zero() }
    }

    pub fn x(&self) -> (r: Fixed)
        ensures
            r == self.x,
    {
        self.x
    }

    pub fn y(&self) -> (r: Fixed)
        ensures
            r == self.y,
    {
        self.y
    }

    pub fn z(&self) -> (r: Fixed)
        ensures
            r == self.z,
    {
        self.z
    }

    #[verifier::when_used_as_spec(spec_axis)]
    pub fn axis(self, i: usize) -> (r: Fixed)
        ensures
            r == self.spec_axis(i),
    {
        if i == 0 {
            self.x
        } else if i == 1 {
            self.y
        } else {
            self.z
        }
    }

    #[verifier::when_used_as_spec(spec_neg)]
    pub fn neg(self) -> (r: Vec3)
        ensures
            r == self.spec_neg(),
    {
        Vec3 { x: self.x.neg(), y: self.y.neg(), z: self.z.neg() }
    }

    #[verifier::when_used_as_spec(spec_add)]
    pub fn add(self, rhs: Vec3) -> (r: Vec3)
        ensures
            r == self.spec_add(rhs),
    {
        Vec3 { x: self.x.add(rhs.x), y: self.y.add(rhs.y), z: self.z.add(rhs.z) }
    }

    #[verifier::when_used_as_spec(spec_sub)]
    pub fn sub(self, rhs: Vec3) -> (r: Vec3)
        ensures
            r == self.spec_sub(rhs),
    {
        Vec3 { x: self.x.sub(rhs.x), y: self.y.sub(rhs.y), z: self.z.sub(rhs.z) }
    }

    #[verifier::when_used_as_spec(spec_mul)]
    pub fn mul(self, rhs: Vec3) -> (r: Vec3)
        ensures
            r == self.spec_mul(rhs),
    {
        Vec3 { x: self.x.mul(rhs.x), y: self.y.mul(rhs.y), z: self.z.mul(rhs.z) }
    }

    #[verifier::when_used_as_spec(spec_scale)]
    pub fn scale(self, t: Fixed) -> (r: Vec3)
        ensures
            r == self.spec_scale(t),
    {
        Vec3 { x: self.x.mul(t), y: self.y.mul(t), z: self.z.mul(t) }
    }

    #[verifier::when_used_as_spec(spec_div)]
    pub fn div(self, t: Fixed) -> (r: Vec3)
        ensures
            r == self.spec_div(t),
    {
        Vec3 { x: self.x.div(t), y: self.y.div(t), z: self.z.div(t) }
    }

    pub fn add_assign(&mut self, other: Vec3)
        ensures
            *final(self) == old(self).spec_add(other),
    {
        *self = self.add(other);
    }

    pub fn mul_assign(&mut self, t: Fixed)
        ensures
            *final(self) == old(self).spec_scale(t),
    {
        *self = self.scale(t);
    }

    pub fn div_assign(&mut self, t: Fixed)
        ensures
            *final(self) == old(self).spec_div(t),
    {
        *self = self.div(t);
    }

    #[verifier::when_used_as_spec(spec_length_squared)]
    pub fn length_squared(&self) -> (r: Fixed)
        ensures
            r == self.spec_length_squared(),
    {
        self.x.mul(self.x).add(self.y.mul(self.y)).add(self.z.mul(self.z))
    }

    fn raw_norm_squared(&self) -> (s: u128)
        ensures
            s == self.spec_raw_norm_squared(),
            s <= 0xc000_0000_0000_0000_0000_0000_0000_0000,
    {
        let ax: u128 = magnitude(self.x);
        let ay: u128 = magnitude(self.y);
        let az: u128 = magnitude(self.z);
        proof {
            lemma_raw_square(self.x@, ax as int);
            lemma_raw_square(self.y@, ay as int);
            lemma_raw_square(self.z@, az as int);
        }
        ax * ax + ay * ay + az * az
    }

    #[verifier::when_used_as_spec(spec_length)]
    pub fn length(&self) -> (r: Fixed)
        ensures
            r == self.spec_length(),
            r@ >= 0,
    {
        let s: u128 = self.raw_norm_squared();
        let root: u128 = crate::fixed::int_sqrt_full(s);
        proof {
            crate::fixed::lemma_int_sqrt_is(s as int, root as int);
        }
        Fixed::from_wide(root as i128)
    }

    #[verifier::when_used_as_spec(spec_inverse)]
    pub fn inverse(&self) -> (r: Vec3)
        ensures
            r == self.spec_inverse(),
    {
        let s: u128 = self.raw_norm_squared();
        if s == 0 {
            return *self;
        }
        Vec3 {
            x: inverse_component(self.x, s),
            y: inverse_component(self.y, s),
            z: inverse_component(self.z, s),
        }
    }

    /// Whether every component is smaller than `1e-8` in magnitude.
    #[verifier::when_used_as_spec(spec_near_zero)]
    pub fn near_zero(&self) -> (r: bool)
        ensures
            r == self.spec_near_zero(),
    {
        self.x.abs().raw < NEAR_ZERO_RAW && self.y.abs().raw < NEAR_ZERO_RAW && self.z.abs().raw
            < NEAR_ZERO_RAW
    }
}

/// The magnitude of the raw value of `x`.
fn magnitude(x: Fixed) -> (m: u128)
    ensures
        m == if x@ >= 0 {
            x@
        } else {
            -x@
        },
        m <= 0x8000_0000_0000_0000,
{
    if x.raw >= 0 {
        x.raw as u128
    } else {
        (-(x.raw as i128)) as u128
    }
}

proof fn lemma_raw_square(x: int, m: int)
    by (nonlinear_arith)
    requires
        m == x || m == -x,
        0 <= m <= 0x8000_0000_0000_0000,
    ensures
        m * m == x * x,
        0 <= m * m <= 0x4000_0000_0000_0000_0000_0000_0000_0000,
{
}

/// `x · 2^64 / s`, rounded toward zero and saturated, for `s > 0`.
fn inverse_component(x: Fixed, s: u128) -> (r: Fixed)
    requires
        s > 0,
    ensures
        r == Fixed::spec_from_raw(crate::fixed::trunc_div(x@ * 0x1_0000_0000_0000_0000, s as int)),
{
    assert(-0x8000_0000_0000_0000_0000_0000_0000_0000 <= x@ * 0x1_0000_0000_0000_0000
        < 0x8000_0000_0000_0000_0000_0000_0000_0000) by (nonlinear_arith)
        requires
            -0x8000_0000_0000_0000 <= x@ < 0x8000_0000_0000_0000,
    ;
    let wide: i128 = x.raw as i128 * 0x1_0000_0000_0000_0000;
    if s > 0x7fff_ffff_ffff_ffff_ffff_ffff_ffff_ffff {
        proof {
            let n = x@ * 0x1_0000_0000_0000_0000;
            if n >= 0 {
                vstd::arithmetic::div_mod::lemma_basic_div(n, s as int);
            } else if -n < s {
                vstd::arithmetic::div_mod::lemma_basic_div(-n, s as int);
            } else {
                // Only the least numerator reaches the least divisor of this branch.
                assert(-n == s);
                vstd::arithmetic::div_mod::lemma_div_basics(s as int);
            }
        }
        if wide == -0x8000_0000_0000_0000_0000_0000_0000_0000 && s
            == 0x8000_0000_0000_0000_0000_0000_0000_0000 {
            Fixed { raw: -1 }
        } else {
            Fixed::zero()
        }
    } else {
        Fixed::from_wide(wide / (s as i128))
    }
}

pub open spec fn spec_dot(v: Vec3, rhs: Vec3) -> Fixed {
    v.x.mul(rhs.x).add(v.y.mul(rhs.y)).add(v.z.mul(rhs.z))
}

#[verifier::when_used_as_spec(spec_dot)]
pub fn dot(v: Vec3, rhs: Vec3) -> (r: Fixed)
    ensures
        r == spec_dot(v, rhs),
{
    v.x.mul(rhs.x).add(v.y.mul(rhs.y)).add(v.z.mul(rhs.z))
}

pub open spec fn spec_cross(v: Vec3, rhs: Vec3) -> Vec3 {
    Vec3 {
        x: v.y.mul(rhs.z).sub(v.z.mul(rhs.y)),
        y: v.z.mul(rhs.x).sub(v.x.mul(rhs.z)),
        z: v.x.mul(rhs.y).sub(v.y.mul(rhs.x)),
    }
}

#[verifier::when_used_as_spec(spec_cross)]
pub fn cross(v: Vec3, rhs: Vec3) -> (r: Vec3)
    ensures
        r == spec_cross(v, rhs),
{
    Vec3::new(
        v.y.mul(rhs.z).sub(v.z.mul(rhs.y)),
        v.z.mul(rhs.x).sub(v.x.mul(rhs.z)),
        v.x.mul(rhs.y).sub(v.y.mul(rhs.x)),
    )
}

impl Vec3 {
    /// Whether every component lies in the range that arithmetic produces.
    pub open spec fn wf(self) -> bool {
        self.x.wf() && self.y.wf() && self.z.wf()
    }
}

/// A dot product changes sign with its second factor.
pub proof fn lemma_dot_neg(a: Vec3, b: Vec3)
    requires
        b.wf(),
    ensures
        spec_dot(a, b.spec_neg()) == spec_dot(a, b).spec_neg(),
{
    crate::fixed::lemma_mul_neg(a.x, b.x);
    crate::fixed::lemma_mul_neg(a.y, b.y);
    crate::fixed::lemma_mul_neg(a.z, b.z);
    let mx = a.x.spec_mul(b.x);
    let my = a.y.spec_mul(b.y);
    let mz = a.z.spec_mul(b.z);
    crate::fixed::lemma_add_neg(mx, my);
    crate::fixed::lemma_add_neg(mx.spec_add(my), mz);
}

/// `v` divided by its length. A vector of length zero has no direction: its
/// components saturate by sign.
pub open spec fn spec_unit_vector(v: Vec3) -> Vec3 {
    v.div(v.length())
}

#[verifier::when_used_as_spec(spec_unit_vector)]
pub fn unit_vector(v: Vec3) -> (r: Vec3)
    ensures
        r == spec_unit_vector(v),
{
    v.div(v.length())
}

/// Mirror image of `v` in the plane with normal `n`: `v - 2·dot(v, n)·n`.
pub open spec fn spec_reflect(v: Vec3, n: Vec3) -> Vec3 {
    v.sub(n.scale(Fixed::from_int(2).mul(dot(v, n))))
}

#[verifier::when_used_as_spec(spec_reflect)]
pub fn reflect(v: Vec3, n: Vec3) -> (r: Vec3)
    ensures
        r == spec_reflect(v, n),
{
    v.sub(n.scale(Fixed::from_int(2).mul(dot(v, n))))
}

/// Direction of `uv` after crossing a surface with normal `n` and ratio of
/// refractive indices `etai_over_etat`, by Snell's law.
pub open spec fn spec_refract(uv: Vec3, n: Vec3, etai_over_etat: Fixed) -> Vec3 {
    let cos_theta = dot(uv.neg(), n).min(Fixed::one());
    let r_out_perp = uv.add(n.scale(cos_theta)).scale(etai_over_etat);
    let r_out_parallel = n.scale(
        Fixed::one().sub(r_out_perp.length_squared()).abs().sqrt().neg(),
    );
    r_out_perp.add(r_out_parallel)
}

#[verifier::when_used_as_spec(spec_refract)]
pub fn refract(uv: Vec3, n: Vec3, etai_over_etat: Fixed) -> (r: Vec3)
    ensures
        r == spec_refract(uv, n, etai_over_etat),
{
    let cos_theta = dot(uv.neg(), n).min(Fixed::one());
    let r_out_perp = uv.add(n.scale(cos_theta)).scale(etai_over_etat);
    let r_out_parallel = n.scale(
        Fixed::one().sub(r_out_perp.length_squared()).abs().sqrt().neg(),
    );
    r_out_perp.add(r_out_parallel)
}

/// Squared length below which a drawn point is too short to be normalised
/// accurately (`1/256`).
pub const MIN_LENGTH_SQUARED_RAW: i64 = 0x100_0000;

/// How many points a rejection sampler draws before it gives up.
pub const MAX_ATTEMPTS: u32 = 128;

/// Whether every coordinate of `p` lies in `[-1, 1]`.
pub open spec fn in_unit_cube(p: Vec3) -> bool {
    &&& -ONE_RAW <= p.x@ <= ONE_RAW
    &&& -ONE_RAW <= p.y@ <= ONE_RAW
    &&& -ONE_RAW <= p.z@ <= ONE_RAW
}

/// The direction of a point drawn from the cube `[-1, 1]³`: the point
/// divided by its length where its squared length lies in `(1/256, 1]`, and
/// nothing elsewhere.
pub open spec fn spec_direction_of(p: Vec3) -> Option<Vec3> {
    let lensq = p.length_squared();
    if MIN_LENGTH_SQUARED_RAW < lensq@ <= ONE_RAW {
        Some(unit_vector(p))
    } else {
        None
    }
}

#[verifier::when_used_as_spec(spec_direction_of)]
pub fn direction_of(p: Vec3) -> (r: Option<Vec3>)
    ensures
        r == spec_direction_of(p),
        r matches Some(d) ==> is_nearly_unit(d),
{
    let lensq = p.length_squared();
    if MIN_LENGTH_SQUARED_RAW < lensq.raw && lensq.raw <= ONE_RAW {
        proof {
            crate::norm::lemma_direction_is_nearly_unit(p);
        }
        Some(unit_vector(p))
    } else {
        None
    }
}

/// Whether the length of `v` is one to within a few units in the last
/// place: the sum of the squares of its raw components lies between
/// `2^64 - 6·2^32` and `2^64 + 33·2^32`.
pub open spec fn is_nearly_unit(v: Vec3) -> bool {
    0x1_0000_0000_0000_0000 - 6 * 0x1_0000_0000 <= v.spec_raw_norm_squared()
        <= 0x1_0000_0000_0000_0000 + 33 * 0x1_0000_0000
}

/// The point of the cube `[min, max)³` that three fractions pick.
pub open spec fn spec_cube_point(min: Fixed, max: Fixed, u: Vec3) -> Vec3 {
    Vec3 {
        x: crate::sampling::spec_lerp(min, max, u.x),
        y: crate::sampling::spec_lerp(min, max, u.y),
        z: crate::sampling::spec_lerp(min, max, u.z),
    }
}

/// Whether every coordinate of `u` is a fraction of `[0, 1)`.
pub open spec fn is_fraction_triple(u: Vec3) -> bool {
    &&& 0 <= u.x@ < ONE_RAW
    &&& 0 <= u.y@ < ONE_RAW
    &&& 0 <= u.z@ < ONE_RAW
}

impl Vec3 {
    /// A vector with three uniform draws from `[0, 1)`.
    pub fn random() -> (r: Vec3)
        ensures
            is_fraction_triple(r),
    {
        Vec3 {
            x: crate::sampling::random_unit(),
            y: crate::sampling::random_unit(),
            z: crate::sampling::random_unit(),
        }
    }

    /// A vector with three uniform draws from `[min, max)`.
    pub fn random_range(min: Fixed, max: Fixed) -> (r: Vec3)
        ensures
            exists|u: Vec3| is_fraction_triple(u) && r == spec_cube_point(min, max, u),
    {
        let u = Vec3::random();
        let r = Vec3 {
            x: crate::sampling::lerp(min, max, u.x),
            y: crate::sampling::lerp(min, max, u.y),
            z: crate::sampling::lerp(min, max, u.z),
        };
        assert(is_fraction_triple(u) && r == spec_cube_point(min, max, u));
        r
    }
}

/// The unit vector along the x axis.
pub open spec fn spec_x_axis() -> Vec3 {
    Vec3 { x: Fixed::one(), y: Fixed::zero(), z: Fixed::zero() }
}

/// Whether `d` is a direction that `random_unit_vector` can return: the
/// direction of a point of the cube `[-1, 1)³`, or the x axis.
pub open spec fn is_unit_draw(d: Vec3) -> bool {
    d == spec_x_axis() || exists|u: Vec3|
        is_fraction_triple(u) && Some(d) == spec_direction_of(
            spec_cube_point(Fixed::spec_one().spec_neg(), Fixed::spec_one(), u),
        )
}

/// A uniformly distributed direction: the direction of the first of up to
/// `MAX_ATTEMPTS` points drawn from the cube `[-1, 1)³` that has one. Should
/// none have one, the x axis is returned.
pub fn random_unit_vector() -> (r: Vec3)
    ensures
        is_unit_draw(r),
        is_nearly_unit(r),
{
    let mut attempt: u32 = 0;
    while attempt < MAX_ATTEMPTS
        invariant
            attempt <= MAX_ATTEMPTS,
        decreases MAX_ATTEMPTS - attempt,
    {
        let u = Vec3::random();
        let p = Vec3 {
            x: crate::sampling::lerp(Fixed::one().neg(), Fixed::one(), u.x),
            y: crate::sampling::lerp(Fixed::one().neg(), Fixed::one(), u.y),
            z: crate::sampling::lerp(Fixed::one().neg(), Fixed::one(), u.z),
        };
        if let Some(d) = direction_of(p) {
            assert(is_fraction_triple(u) && Some(d) == spec_direction_of(
                spec_cube_point(Fixed::spec_one().spec_neg(), Fixed::spec_one(), u),
            ));
            return d;
        }
        attempt += 1;
    }
    assert(0x1_0000_0000int * 0x1_0000_0000int + 0int * 0int + 0int * 0int
        == 0x1_0000_0000_0000_0000) by (nonlinear_arith);
    Vec3::new(Fixed::one(), Fixed::zero(), Fixed::zero())
}

/// Whether `p` lies in the open unit disk of the plane `z = 0`.
pub open spec fn in_unit_disk(p: Vec3) -> bool {
    p.z@ == 0 && p.length_squared()@ < ONE_RAW
}

/// The point of the square `[-1, 1)²` of the plane `z = 0` that the
/// fractions `a` and `b` pick, where it lies in the open unit disk, and
/// nothing elsewhere.
pub open spec fn spec_disk_point(a: Fixed, b: Fixed) -> Option<Vec3> {
    let p = Vec3 {
        x: crate::sampling::spec_lerp(Fixed::spec_one().spec_neg(), Fixed::spec_one(), a),
        y: crate::sampling::spec_lerp(Fixed::spec_one().spec_neg(), Fixed::spec_one(), b),
        z: Fixed::spec_zero(),
    };
    if p.length_squared()@ < ONE_RAW {
        Some(p)
    } else {
        None
    }
}

#[verifier::when_used_as_spec(spec_disk_point)]
pub fn disk_point(a: Fixed, b: Fixed) -> (r: Option<Vec3>)
    ensures
        r == spec_disk_point(a, b),
        r matches Some(p) ==> in_unit_disk(p),
{
    let p = Vec3::new(
        crate::sampling::lerp(Fixed::one().neg(), Fixed::one(), a),
        crate::sampling::lerp(Fixed::one().neg(), Fixed::one(), b),
        Fixed::zero(),
    );
    if p.length_squared().raw < ONE_RAW {
        Some(p)
    } else {
        None
    }
}

/// Whether `p` is a point that `random_in_unit_disk` can return: a point
/// of the disk that two fractions of `[0, 1)` pick, or the centre.
pub open spec fn is_disk_draw(p: Vec3) -> bool {
    p == Vec3::spec_zero() || exists|a: Fixed, b: Fixed|
        0 <= a@ < ONE_RAW && 0 <= b@ < ONE_RAW && Some(p) == spec_disk_point(a, b)
}

/// A point of the open unit disk of the plane `z = 0`: the first of up to
/// `MAX_ATTEMPTS` points drawn from the square `[-1, 1)²` that lies in it.
/// Should none lie in it, the centre is returned.
pub fn random_in_unit_disk() -> (r: Vec3)
    ensures
        is_disk_draw(r),
        in_unit_disk(r),
{
    let mut attempt: u32 = 0;
    while attempt < MAX_ATTEMPTS
        invariant
            attempt <= MAX_ATTEMPTS,
        decreases MAX_ATTEMPTS - attempt,
    {
        let a = crate::sampling::random_unit();
        let b = crate::sampling::random_unit();
        if let Some(p) = disk_point(a, b) {
            assert(0 <= a@ < ONE_RAW && 0 <= b@ < ONE_RAW && Some(p) == spec_disk_point(a, b));
            return p;
        }
        attempt += 1;
    }
    proof {
        crate::fixed::lemma_zero_products();
    }
    Vec3::zero()
}

/// The direction that the fractions `r1`, `r2` pick on the hemisphere
/// around the z axis, with density proportional to the cosine of the angle
/// from the axis: `φ = 2π·r1`, `x = cos φ·√r2`, `y = sin φ·√r2`,
/// `z = √(1 - r2)`.
pub open spec fn spec_cosine_direction(r1: Fixed, r2: Fixed) -> Vec3 {
    let phi = Fixed { raw: crate::trig::TWO_PI_RAW }.mul(r1);
    let sc = crate::trig::spec_sin_cos(phi);
    Vec3 {
        x: sc.1.mul(r2.sqrt()),
        y: sc.0.mul(r2.sqrt()),
        z: Fixed::one().sub(r2).sqrt(),
    }
}

#[verifier::when_used_as_spec(spec_cosine_direction)]
pub fn cosine_direction(r1: Fixed, r2: Fixed) -> (r: Vec3)
    ensures
        r == spec_cosine_direction(r1, r2),
        r.z@ >= 0,
{
    let phi = Fixed { raw: crate::trig::TWO_PI_RAW }.mul(r1);
    let sc = crate::trig::sin_cos(phi);
    proof {
        crate::fixed::lemma_sqrt_nonnegative(Fixed::one().sub(r2));
    }
    Vec3 { x: sc.1.mul(r2.sqrt()), y: sc.0.mul(r2.sqrt()), z: Fixed::one().sub(r2).sqrt() }
}

/// A direction of the hemisphere around the z axis, drawn with density
/// proportional to the cosine of the angle from the axis.
pub fn random_cosine_direction() -> (r: Vec3)
    ensures
        exists|r1: Fixed, r2: Fixed|
            0 <= r1@ < ONE_RAW && 0 <= r2@ < ONE_RAW && r == spec_cosine_direction(r1, r2),
        r.z@ >= 0,
{
    let r1 = crate::sampling::random_unit();
    let r2 = crate::sampling::random_unit();
    cosine_direction(r1, r2)
}

} // verus!
