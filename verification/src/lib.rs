//! A small recursive path tracer over fixed-point arithmetic.
//!
//! The scene is a list of spheres with diffuse, metallic or refractive
//! materials; a camera shoots jittered rays through each pixel and follows
//! their bounces up to a depth bound, and pixel colours are gamma-corrected
//! and quantised to bytes. All scalars are fixed-point numbers (`fixed`),
//! so every geometric and shading step carries an exact contract.

use vstd::prelude::*;

pub mod camera;
pub mod colour;
pub mod fixed;
pub mod hittable;
pub mod interval;
pub mod material;
pub mod ray;
pub mod rng;
pub mod vec3;

use crate::rng::RandomSource;

verus! {

/// Fixed-point representation of pi.
pub const PI_FX: i128 = 205887;

/// Degrees to radians, in fixed point: `degrees * pi / 180`, truncated.
pub fn degrees_to_radians(degrees: i128) -> (r: i128)
    requires
        fixed::abs_i(degrees as int) <= 0x10000000000,
    ensures
        r == fixed::tdiv(fixed::fx_mul_s(degrees as int, PI_FX as int), 180),
{
    proof {
        fixed::lemma_mul_abs_le(degrees as int, PI_FX as int, 0x10000000000, PI_FX as int);
        fixed::lemma_tdiv_facts(degrees as int * PI_FX as int, fixed::FX_ONE as int);
    }
    let scaled = fixed::fx_mul(degrees, PI_FX);
    proof {
        fixed::lemma_tdiv_facts(scaled as int, 180);
    }
    scaled / 180
}

/// A uniform fixed-point draw in `[0, 1)`.
pub fn random_fx<R: RandomSource>(rng: &mut R) -> (r: i128)
    ensures
        0 <= r < fixed::FX_ONE,
{
    rng.next_unit()
}

/// What a scaled unit draw into `[min, max)` can be: `min` plus the draw
/// times the span, truncated.
pub open spec fn uniform_in_range_s(r: int, min: int, max: int) -> bool {
    exists|u: int| 0 <= u < fixed::FX_ONE && r == min + #[trigger] fixed::fx_mul_s(u, max - min)
}

/// A uniform fixed-point draw from the half-open range `[min, max)` (or
/// exactly `min` when the range is empty).
pub fn random_fx_in_range<R: RandomSource>(rng: &mut R, min: i128, max: i128) -> (r: i128)
    requires
        min <= max,
        fixed::abs_i(min as int) <= fixed::FX_INF as int,
        fixed::abs_i(max as int) <= fixed::FX_INF as int,
    ensures
        min <= r <= max,
        min < max ==> r < max,
        uniform_in_range_s(r as int, min as int, max as int),
{
    let u = rng.next_unit();
    let span = max - min;
    proof {
        fixed::lemma_mul_abs_le(u as int, span as int, fixed::FX_ONE as int, span as int);
        fixed::lemma_tdiv_facts(u as int * span as int, fixed::FX_ONE as int);
        assert(u as int * span as int >= 0) by (nonlinear_arith)
            requires
                u as int >= 0,
                span as int >= 0,
        ;
        assert(u as int * span as int <= span as int * (fixed::FX_ONE as int)) by (nonlinear_arith)
            requires
                0 <= u as int <= fixed::FX_ONE as int,
                span as int >= 0,
        ;
        assert(fixed::fx_mul_s(u as int, span as int) <= span as int) by (nonlinear_arith)
            requires
                fixed::fx_mul_s(u as int, span as int) * (fixed::FX_ONE as int) <= u as int
                    * span as int,
                u as int * span as int <= span as int * (fixed::FX_ONE as int),
                fixed::FX_ONE as int >= 1,
        ;
    }
    proof {
        assert(u as int * span as int <= (65536 - 1) * span as int) by (nonlinear_arith)
            requires
                0 <= u as int <= 65535,
                span as int >= 0,
        ;
    }
    let inc = fixed::fx_mul(u, span);
    let r = min + inc;
    proof {
        if span > 0 {
            // the draw is strictly below one unit, so the scaled increment
            // is strictly below the span
            assert(inc as int * 65536 <= 65535 * span as int);
            assert(inc < span);
        }
        assert(r as int == min as int + fixed::fx_mul_s(u as int, max as int - min as int));
    }
    r
}

} // verus!
