//! Colours and their encoding to output bytes: gamma-2 correction, interval
//! clamping, and quantisation with a uniform scale factor of 256.

use vstd::prelude::*;

use crate::fixed::{abs_i, fx_sqrt, fx_sqrt_s, tdiv, FX_INF, FX_LIM, FX_ONE};
use crate::interval::{clamp_s, Interval};
use crate::vec3::{vb, Vec3};

verus! {

/// A colour is a vector of red, green and blue channels, each nominally in
/// `[0, 1]` fixed units.
pub type Colour = Vec3;

/// Each channel lies between 0 and one unit.
pub open spec fn colour01(c: Colour) -> bool {
    0 <= c.x <= FX_ONE && 0 <= c.y <= FX_ONE && 0 <= c.z <= FX_ONE
}

/// A quantised output pixel.
#[derive(Clone, Copy, PartialEq, Eq, Structural, Debug)]
pub struct Rgb {
    pub r: u8,
    pub g: u8,
    pub b: u8,
}

/// Gamma-2 correction: the square root of a positive channel, zero otherwise.
pub open spec fn gamma_s(x: int) -> int {
    if x > 0 {
        fx_sqrt_s(x)
    } else {
        0
    }
}

/// Fixed-point value of 0.999: the top of the intensity interval.
pub const INTENSITY_MAX: i128 = 65480;

/// One channel's output byte: gamma correction, clamping into
/// `[0, 0.999]`, scaling by 256 and truncation.
pub open spec fn encode_channel_s(x: int) -> int {
    tdiv(256 * clamp_s(Interval { min: 0, max: INTENSITY_MAX }, gamma_s(x)), FX_ONE as int)
}

pub open spec fn encode_colour_s(c: Colour) -> Rgb {
    Rgb {
        r: encode_channel_s(c.x as int) as u8,
        g: encode_channel_s(c.y as int) as u8,
        b: encode_channel_s(c.z as int) as u8,
    }
}

pub fn linear_to_gamma(linear_component: i128) -> (r: i128)
    requires
        abs_i(linear_component as int) <= FX_INF as int,
    ensures
        r == gamma_s(linear_component as int),
        0 <= r <= 0x4000000000,
{
    if linear_component > 0 {
        proof {
            crate::fixed::lemma_mul_abs_le(
                linear_component as int,
                FX_ONE as int,
                FX_INF as int,
                FX_ONE as int,
            );
        }
        let r = fx_sqrt(linear_component);
        proof {
            assert(r as int <= 0x4000000000) by (nonlinear_arith)
                requires
                    0 <= r as int,
                    r as int * r as int <= linear_component as int * 65536,
                    linear_component as int <= 1152921504606846976,
            ;
        }
        return r;
    }
    0
}

/// One channel of a pixel, as written to the image.
pub fn encode_channel(x: i128) -> (r: u8)
    requires
        abs_i(x as int) <= FX_INF as int,
    ensures
        r == encode_channel_s(x as int),
{
    let g = linear_to_gamma(x);
    let intensity = Interval::new(0, INTENSITY_MAX);
    let clamped = intensity.clamp(g);
    proof {
        assert(0 <= clamped <= INTENSITY_MAX);
        crate::fixed::lemma_tdiv_facts(256 * clamped as int, FX_ONE as int);
    }
    let scaled = (256 * clamped) / FX_ONE;
    proof {
        assert(0 <= scaled <= 255);
    }
    scaled as u8
}

/// A pixel colour quantised to bytes, channel by channel.
pub fn encode_colour(c: Colour) -> (r: Rgb)
    requires
        vb(c, FX_INF as int),
    ensures
        r == encode_colour_s(c),
{
    Rgb { r: encode_channel(c.x), g: encode_channel(c.y), b: encode_channel(c.z) }
}

} // verus!
