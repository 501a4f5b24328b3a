//! Colors.

use vstd::prelude::*;

verus! {

/// An RGB color, one byte per channel.
pub type Pixel = (u8, u8, u8);

/// The background color.
pub const BLACK: Pixel = (0, 0, 0);

/// The default drawing color.
pub const WHITE: Pixel = (255, 255, 255);

/// The full light intensity, which leaves a color as it is.
pub const FULL_LIGHT: u8 = 255;

/// A channel of a color under light of the given intensity: the
/// `light / 255` part of it, rounded down.
pub open spec fn spec_scale(channel: u8, light: u8) -> u8 {
    ((channel as int) * (light as int) / 255) as u8
}

/// A color under light of the given intensity: each channel scaled.
pub open spec fn spec_shade(color: Pixel, light: u8) -> Pixel {
    (spec_scale(color.0, light), spec_scale(color.1, light), spec_scale(color.2, light))
}

/// A scaled channel is no brighter than the channel; full light leaves it
/// as it is, and no light makes it black.
pub proof fn lemma_scale(channel: u8, light: u8)
    ensures
        spec_scale(channel, light) <= channel,
        spec_scale(channel, light) == (channel as int) * (light as int) / 255,
        spec_scale(channel, FULL_LIGHT) == channel,
        spec_scale(channel, 0) == 0,
{
    let c = channel as int;
    let l = light as int;
    assert(0 <= c * l <= c * 255) by (nonlinear_arith)
        requires
            0 <= c,
            0 <= l <= 255,
    ;
}

/// Scales one channel of a color.
#[verifier::when_used_as_spec(spec_scale)]
pub fn scale(channel: u8, light: u8) -> (r: u8)
    ensures
        r == spec_scale(channel, light),
{
    proof {
        lemma_scale(channel, light);
        let c = channel as int;
        let l = light as int;
        assert(0 <= c * l <= 255 * 255) by (nonlinear_arith)
            requires
                0 <= c <= 255,
                0 <= l <= 255,
        ;
    }
    ((channel as u32) * (light as u32) / 255) as u8
}

/// Scales each channel of `color` by `light / 255`.
#[verifier::when_used_as_spec(spec_shade)]
pub fn shade(color: Pixel, light: u8) -> (r: Pixel)
    ensures
        r == spec_shade(color, light),
{
    (scale(color.0, light), scale(color.1, light), scale(color.2, light))
}

} // verus!
