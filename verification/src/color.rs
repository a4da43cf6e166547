//! Colours, and their conversion to the 8-bit channels of an image.

use crate::fixed::Fixed;
use crate::interval::Interval;
use crate::vec3::Vec3;
use vstd::prelude::*;

verus! {

/// Red, green and blue, each from 0 (dark) to 1 (full).
pub type Color = Vec3;

/// Raw value of 0.999, the brightest intensity that is written.
pub const MAX_INTENSITY_RAW: i64 = 4_290_672_329;

/// The character of the digit `d`.
pub open spec fn spec_digit(d: int) -> char {
    (48 + d) as char
}

/// The decimal digits of `n`, without leading zeros.
pub open spec fn spec_decimal(n: nat) -> Seq<char>
    decreases n,
{
    if n < 10 {
        seq![spec_digit(n as int)]
    } else {
        spec_decimal(n / 10).push(spec_digit((n % 10) as int))
    }
}

/// Formats `n` with `format!("{}", n)`. The contract claims what the
/// standard library documents of `Display` for integers: the decimal
/// digits of the number, without sign or padding.
#[verifier::external_body]
pub(crate) fn decimal(n: u32) -> (s: String)
    ensures
        s@ == spec_decimal(n as nat),
{
    format!("{}", n)
}

/// Formats two strings with `format!("{} {}", a, b)`. The contract claims
/// what the standard library documents of `format!`: the first string, one
/// space, and the second string.
#[verifier::external_body]
pub(crate) fn join_words(a: &String, b: &String) -> (s: String)
    ensures
        s@ == a@ + seq![' '] + b@,
{
    format!("{} {}", a, b)
}

/// The square root of a positive intensity; zero for the others.
pub open spec fn spec_linear_to_gamma(linear_component: Fixed) -> Fixed {
    if linear_component@ > 0 {
        linear_component.sqrt()
    } else {
        Fixed::zero()
    }
}

#[verifier::when_used_as_spec(spec_linear_to_gamma)]
pub fn linear_to_gamma(linear_component: Fixed) -> (r: Fixed)
    ensures
        r == spec_linear_to_gamma(linear_component),
{
    if linear_component.raw > 0 {
        return linear_component.sqrt();
    }
    Fixed::zero()
}

/// The 8-bit value of a linear intensity: `⌊256 · c⌋`, where `c` is the
/// gamma-corrected intensity limited to `[0, 0.999]`.
pub open spec fn spec_channel_byte(linear_component: Fixed) -> int {
    let intensity = Interval { min: Fixed::zero(), max: Fixed { raw: MAX_INTENSITY_RAW } };
    Fixed::from_int(256).mul(intensity.spec_clamp(spec_linear_to_gamma(linear_component)))
        .spec_floor()
}

pub fn channel_byte(linear_component: Fixed) -> (r: u8)
    ensures
        r == spec_channel_byte(linear_component),
{
    let intensity = Interval::new(Fixed::zero(), Fixed { raw: MAX_INTENSITY_RAW });
    let clamped = intensity.clamp(linear_to_gamma(linear_component));
    assert(0 <= 0x100_0000_0000 * clamped@ <= 0x100_0000_0000 * 4_290_672_329) by (nonlinear_arith)
        requires
            0 <= clamped@ <= 4_290_672_329,
    ;
    assert(Fixed::spec_from_int(256)@ == 0x100_0000_0000);
    let scaled = Fixed::from_int(256).mul(clamped);
    let byte: i64 = scaled.floor();
    byte as u8
}

/// The three 8-bit channels of a colour.
pub open spec fn spec_pixel_bytes(pixel_color: Color) -> (int, int, int) {
    (
        spec_channel_byte(pixel_color.x),
        spec_channel_byte(pixel_color.y),
        spec_channel_byte(pixel_color.z),
    )
}

pub fn pixel_bytes(pixel_color: Color) -> (r: (u8, u8, u8))
    ensures
        (r.0 as int, r.1 as int, r.2 as int) == spec_pixel_bytes(pixel_color),
{
    (
        channel_byte(pixel_color.x()),
        channel_byte(pixel_color.y()),
        channel_byte(pixel_color.z()),
    )
}

/// The text of a pixel: its three channels in decimal, a space between
/// them.
pub open spec fn spec_write_color(pixel_color: Color) -> Seq<char> {
    let (r, g, b) = spec_pixel_bytes(pixel_color);
    spec_decimal(r as nat) + seq![' '] + spec_decimal(g as nat) + seq![' '] + spec_decimal(
        b as nat,
    )
}

pub fn write_color(pixel_color: Color) -> (s: String)
    ensures
        s@ == spec_write_color(pixel_color),
{
    let (rbyte, gbyte, bbyte) = pixel_bytes(pixel_color);
    let red_green = join_words(&decimal(rbyte as u32), &decimal(gbyte as u32));
    join_words(&red_green, &decimal(bbyte as u32))
}

} // verus!
