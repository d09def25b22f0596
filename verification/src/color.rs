//! 3-channel 8-bit color values, with intensity scaling and random
//! generation.

use vstd::prelude::*;
use crate::FX_ONE;

verus! {

/// An RGB color: three independent 8-bit channels.
#[derive(Clone, Copy, Debug, PartialEq, Eq, Structural)]
pub struct Color(pub u8, pub u8, pub u8);

/// What scaling one channel `c` by the Q16 factor `x` yields: the factor is
/// floored at 0, the channel is multiplied by it, the product is floored to
/// an integer and then narrowed to 8 bits by truncation (not saturation).
pub open spec fn scale_channel(c: u8, x: i64) -> u8 {
    let f = if x < 0 { 0 } else { x as int };
    (((c as int) * f / (FX_ONE as int)) % 256) as u8
}

/// What scaling a color by the Q16 factor `x` yields, channel by channel.
pub open spec fn scale_spec(c: Color, x: i64) -> Color {
    Color(scale_channel(c.0, x), scale_channel(c.1, x), scale_channel(c.2, x))
}

impl Color {
    /// A color with three independent random channels.
    ///
    /// Nothing can be promised of the channel values.
    pub fn random() -> Color {
        Color(random_u8(), random_u8(), random_u8())
    }

    /// Scales each channel by the non-negative part of the Q16 factor `x`,
    /// truncating the product to an integer and narrowing it to 8 bits.
    pub fn scale(&self, x: i64) -> (r: Color)
        ensures
            r == scale_spec(*self, x),
    {
        let f: i64 = if x < 0 { 0 } else { x };
        Color(
            scale_one(self.0, f),
            scale_one(self.1, f),
            scale_one(self.2, f),
        )
    }
}

/// Scaling the factor 1.0 leaves every channel unchanged.
pub proof fn lemma_scale_one(c: Color)
    ensures
        scale_spec(c, FX_ONE) == c,
{
    assert(c.0 * (FX_ONE as int) / (FX_ONE as int) == c.0) by (nonlinear_arith);
    assert(c.1 * (FX_ONE as int) / (FX_ONE as int) == c.1) by (nonlinear_arith);
    assert(c.2 * (FX_ONE as int) / (FX_ONE as int) == c.2) by (nonlinear_arith);
}

/// Scaling by the factor 0 blacks every channel out.
pub proof fn lemma_scale_zero(c: Color)
    ensures
        scale_spec(c, 0) == Color(0, 0, 0),
{
    assert(FX_ONE as int == 65536);
    assert((c.0 as int) * 0 == 0) by (nonlinear_arith);
    assert((c.1 as int) * 0 == 0) by (nonlinear_arith);
    assert((c.2 as int) * 0 == 0) by (nonlinear_arith);
    assert(0int / 65536 == 0) by (nonlinear_arith);
    assert(0int % 256 == 0) by (nonlinear_arith);
    assert(scale_channel(c.0, 0) == 0);
    assert(scale_channel(c.1, 0) == 0);
    assert(scale_channel(c.2, 0) == 0);
}

/// One channel of `Color::scale`, for a factor already floored at 0.
fn scale_one(c: u8, f: i64) -> (r: u8)
    requires
        f >= 0,
    ensures
        r == scale_channel(c, f),
{
    proof {
        assert((c as int) * (f as int) <= 255 * 0x7FFF_FFFF_FFFF_FFFF) by (nonlinear_arith)
            requires 0 <= c <= 255, 0 <= f <= 0x7FFF_FFFF_FFFF_FFFF;
    }
    let wide: u128 = (c as u128) * (f as u128) / 65536;
    (wide % 256) as u8
}

/// Relies on `rand::random`: each call draws one value of the type from the
/// thread-local generator. Nothing is promised of the value.
pub assume_specification<T>[ rand::random::<T> ]() -> (r: T)
    where
        rand::distributions::Standard: rand::distributions::Distribution<T>,
;

/// One uniformly random byte, from `rand::random`.
fn random_u8() -> u8 {
    rand::random::<u8>()
}

} // verus!
