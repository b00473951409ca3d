//! The refractive material: refracts or reflects at the surface according
//! to Snell's law, total internal reflection and Schlick's approximation,
//! transmitting at full strength (white attenuation) either way.

use vstd::prelude::*;

use crate::colour::Colour;
use crate::fixed::{
    abs_i, fx_div, fx_div_s, fx_mul, fx_mul_s, fx_sqrt, fx_sqrt_s, lemma_fx_div_bound,
    lemma_fx_mul_bound, lemma_mul_abs_le, lemma_tdiv_cancel,
    lemma_tdiv_facts, lemma_tdiv_mono, tdiv, FX_LIM, FX_ONE,
};
use crate::hittable::{rec_wf, HitRecord};
use crate::ray::{ray_wf, Ray, GEOM_LIM};
use crate::rng::RandomSource;
use crate::vec3::{
    dot_s, len_sq_s, lemma_dot_bound, negv, reflect, reflect_s, refract, refract_s, unitv, v3, vb,
    Vec3,
};

verus! {

#[derive(Clone, Copy, PartialEq, Eq, Structural, Debug)]
pub struct Dielectric {
    pub refraction_index: i128,
}

/// Fifth power in fixed point, truncating at each step.
pub open spec fn pow5_s(x: int) -> int {
    fx_mul_s(fx_mul_s(fx_mul_s(fx_mul_s(x, x), x), x), x)
}

/// Schlick's reflectance approximation:
/// `r0 + (1 - r0) (1 - cos)^5` with `r0 = ((1 - ior) / (1 + ior))^2`.
pub open spec fn reflectance_s(ior: int, cos_theta: int) -> int {
    let r0_base = fx_div_s(FX_ONE - ior, FX_ONE + ior);
    let r0 = fx_mul_s(r0_base, r0_base);
    r0 + fx_mul_s(FX_ONE - r0, pow5_s(FX_ONE - cos_theta))
}

/// The relative refraction ratio: `1 / ior` entering the surface, `ior`
/// leaving it.
pub open spec fn dielectric_ratio_s(d: Dielectric, rec: HitRecord) -> int {
    if rec.front_face {
        fx_div_s(FX_ONE as int, d.refraction_index as int)
    } else {
        d.refraction_index as int
    }
}

/// The cosine between the reversed unit ray direction and the normal,
/// clamped into `[-1, 1]`.
pub open spec fn dielectric_cos_s(ray: Ray, rec: HitRecord) -> int {
    let raw = dot_s(negv(unitv(ray.direction)), rec.normal);
    let hi = if raw <= FX_ONE as int {
        raw
    } else {
        FX_ONE as int
    };
    if hi < -(FX_ONE as int) {
        -(FX_ONE as int)
    } else {
        hi
    }
}

/// Whether total internal reflection forces the ray to reflect:
/// `ratio * sin_theta > 1`.
pub open spec fn dielectric_tir_s(d: Dielectric, ray: Ray, rec: HitRecord) -> bool {
    let cos_theta = dielectric_cos_s(ray, rec);
    let sin_theta = fx_sqrt_s(FX_ONE - fx_mul_s(cos_theta, cos_theta));
    fx_mul_s(dielectric_ratio_s(d, rec), sin_theta) > FX_ONE as int
}

/// The scattered direction for the draw `draw`: reflect on total internal
/// reflection or when the draw falls below the reflectance, refract
/// otherwise; a degenerately short result falls back to the oriented
/// normal so that the outgoing ray is always usable.
pub open spec fn dielectric_dir_s(d: Dielectric, ray: Ray, rec: HitRecord, draw: int) -> Vec3 {
    let uv = unitv(ray.direction);
    let cos_theta = dielectric_cos_s(ray, rec);
    let chosen = if dielectric_tir_s(d, ray, rec) || draw < reflectance_s(
        d.refraction_index as int,
        cos_theta,
    ) {
        reflect_s(uv, rec.normal)
    } else {
        refract_s(uv, rec.normal, dielectric_ratio_s(d, rec))
    };
    if len_sq_s(chosen) >= 1 {
        chosen
    } else {
        rec.normal
    }
}

impl Dielectric {
    pub fn new(refraction_index: i128) -> (r: Dielectric)
        requires
            FX_ONE / 4 <= refraction_index <= 4 * FX_ONE,
        ensures
            r.refraction_index == refraction_index,
    {
        Dielectric { refraction_index }
    }

    /// Always scatters with white attenuation; the direction reflects or
    /// refracts according to the draw.
    pub fn scatter<R: RandomSource>(&self, ray: &Ray, rec: &HitRecord, rng: &mut R) -> (r: Option<
        (Colour, Ray),
    >)
        requires
            FX_ONE / 4 <= self.refraction_index <= 4 * FX_ONE,
            ray_wf(*ray),
            rec_wf(*rec),
        ensures
            r.is_some(),
            r.unwrap().0 == v3(FX_ONE as int, FX_ONE as int, FX_ONE as int),
            crate::material::scatter_common(r, *rec),
            exists|draw: int|
                0 <= draw < FX_ONE && r.unwrap().1 == (Ray {
                    origin: rec.p,
                    direction: #[trigger] dielectric_dir_s(*self, *ray, *rec, draw),
                }),
    {
        let ior = self.refraction_index;
        let ri = if rec.front_face {
            proof {
                lemma_tdiv_facts((65536 * 65536) as int, ior as int);
                lemma_tdiv_mono(0, (65536 * 65536) as int, ior as int);
                assert(fx_div_s(FX_ONE as int, ior as int) * 16384 <= fx_div_s(
                    FX_ONE as int,
                    ior as int,
                ) * ior as int) by (nonlinear_arith)
                    requires
                        ior as int >= 16384,
                        fx_div_s(FX_ONE as int, ior as int) >= 0,
                ;
            }
            fx_div(FX_ONE, ior)
        } else {
            ior
        };
        proof {
            assert(0 <= ri as int <= 4 * (FX_ONE as int));
        }
        let uv = ray.direction.unit();
        let minus_uv = uv.neg();
        proof {
            lemma_dot_bound(negv(uv), rec.normal, 2 * (FX_ONE as int), 2 * (FX_ONE as int));
        }
        let raw = minus_uv.dot(rec.normal);
        let hi = if raw <= FX_ONE {
            raw
        } else {
            FX_ONE
        };
        let cos_theta = if hi < -FX_ONE {
            -FX_ONE
        } else {
            hi
        };
        proof {
            lemma_mul_abs_le(cos_theta as int, cos_theta as int, FX_ONE as int, FX_ONE as int);
            lemma_tdiv_facts(cos_theta as int * cos_theta as int, FX_ONE as int);
            assert(cos_theta as int * cos_theta as int >= 0) by (nonlinear_arith);
        }
        let cos_sq = fx_mul(cos_theta, cos_theta);
        let sin_sq = FX_ONE - cos_sq;
        proof {
            assert(0 <= sin_sq as int <= FX_ONE as int);
            lemma_mul_abs_le(sin_sq as int, FX_ONE as int, FX_ONE as int, FX_ONE as int);
        }
        let sin_theta = fx_sqrt(sin_sq);
        proof {
            assert(sin_theta as int <= FX_ONE as int) by (nonlinear_arith)
                requires
                    0 <= sin_theta as int,
                    sin_theta as int * sin_theta as int <= sin_sq as int * 65536,
                    sin_sq as int <= 65536,
            ;
            lemma_mul_abs_le(ri as int, sin_theta as int, 4 * (FX_ONE as int), FX_ONE as int);
        }
        let cannot_refract = fx_mul(ri, sin_theta) > FX_ONE;
        let refl = reflectance(ior, cos_theta);
        let draw = rng.next_unit();
        let chosen = if cannot_refract || draw < refl {
            reflect(uv, rec.normal)
        } else {
            refract(uv, rec.normal, ri)
        };
        proof {
            if cannot_refract || draw < refl {
                lemma_dot_bound(uv, rec.normal, 2 * (FX_ONE as int), 2 * (FX_ONE as int));
                lemma_fx_mul_bound(
                    rec.normal.x as int,
                    2 * dot_s(uv, rec.normal),
                    2 * (FX_ONE as int),
                    24 * (FX_ONE as int),
                );
                lemma_fx_mul_bound(
                    rec.normal.y as int,
                    2 * dot_s(uv, rec.normal),
                    2 * (FX_ONE as int),
                    24 * (FX_ONE as int),
                );
                lemma_fx_mul_bound(
                    rec.normal.z as int,
                    2 * dot_s(uv, rec.normal),
                    2 * (FX_ONE as int),
                    24 * (FX_ONE as int),
                );
                assert(vb(chosen, 50 * (FX_ONE as int)));
            }
        }
        let chosen_len_sq = chosen.length_squared();
        let direction = if chosen_len_sq >= 1 {
            chosen
        } else {
            rec.normal
        };
        let white = Vec3::new(FX_ONE, FX_ONE, FX_ONE);
        let r = Some((white, Ray::new(rec.p, direction)));
        proof {
            assert(direction == dielectric_dir_s(*self, *ray, *rec, draw as int));
        }
        r
    }
}

/// Schlick's reflectance, executed in fixed point.
pub fn reflectance(ior: i128, cos_theta: i128) -> (r: i128)
    requires
        FX_ONE / 4 <= ior <= 4 * FX_ONE,
        abs_i(cos_theta as int) <= FX_ONE as int,
    ensures
        r == reflectance_s(ior as int, cos_theta as int),
{
    proof {
        lemma_mul_abs_le(FX_ONE as int - ior as int, FX_ONE as int, 327680, 65536);
        lemma_fx_div_bound(FX_ONE as int - ior as int, FX_ONE as int + ior as int, 327680);
    }
    let r0_base = fx_div(FX_ONE - ior, FX_ONE + ior);
    proof {
        assert(abs_i(r0_base as int) <= 327680) by (nonlinear_arith)
            requires
                abs_i(r0_base as int) * (FX_ONE as int + ior as int) <= 327680 * 65536,
                ior as int >= 16384,
                abs_i(r0_base as int) >= 0,
                FX_ONE == 65536,
        ;
        lemma_mul_abs_le(r0_base as int, r0_base as int, 327680, 327680);
        lemma_fx_mul_bound(r0_base as int, r0_base as int, 327680, 327680);
    }
    let r0 = fx_mul(r0_base, r0_base);
    let base = FX_ONE - cos_theta;
    proof {
        lemma_mul_abs_le(base as int, base as int, 131072, 131072);
        lemma_fx_mul_bound(base as int, base as int, 131072, 131072);
    }
    let p2 = fx_mul(base, base);
    proof {
        lemma_mul_abs_le(p2 as int, base as int, 262144, 131072);
        lemma_fx_mul_bound(p2 as int, base as int, 262144, 131072);
    }
    let p3 = fx_mul(p2, base);
    proof {
        lemma_mul_abs_le(p3 as int, base as int, 524288, 131072);
        lemma_fx_mul_bound(p3 as int, base as int, 524288, 131072);
    }
    let p4 = fx_mul(p3, base);
    proof {
        lemma_mul_abs_le(p4 as int, base as int, 1048576, 131072);
        lemma_fx_mul_bound(p4 as int, base as int, 1048576, 131072);
    }
    let p5 = fx_mul(p4, base);
    proof {
        lemma_mul_abs_le(FX_ONE as int - r0 as int, p5 as int, 1703936, 2097152);
        lemma_fx_mul_bound(FX_ONE as int - r0 as int, p5 as int, 1703936, 2097152);
    }
    r0 + fx_mul(FX_ONE - r0, p5)
}

/// With a refraction index of one the two media match, so total internal
/// reflection can never occur.
pub proof fn lemma_unity_index_never_total_reflection(d: Dielectric, ray: Ray, rec: HitRecord)
    requires
        d.refraction_index == FX_ONE,
    ensures
        !dielectric_tir_s(d, ray, rec),
{
    let s = FX_ONE as int;
    let cos_theta = dielectric_cos_s(ray, rec);
    let cos_sq = fx_mul_s(cos_theta, cos_theta);
    lemma_mul_abs_le(cos_theta, cos_theta, s, s);
    lemma_tdiv_facts(cos_theta * cos_theta, s);
    assert(cos_theta * cos_theta >= 0) by (nonlinear_arith);
    assert(0 <= cos_sq <= s);
    let sin_sq = s - cos_sq;
    let sin_theta = fx_sqrt_s(sin_sq);
    crate::fixed::lemma_isqrt_s(sin_sq * s);
    assert(sin_theta >= 0);
    assert(sin_theta <= s) by (nonlinear_arith)
        requires
            0 <= sin_theta,
            sin_theta * sin_theta <= sin_sq * s,
            0 <= sin_sq <= s,
            s == 65536,
    ;
    // the ratio is exactly one on both faces
    lemma_tdiv_cancel(s, s);
    assert(fx_div_s(s, s) == s);
    let ratio = dielectric_ratio_s(d, rec);
    assert(ratio == s);
    // ratio * sin / one == sin, which never exceeds one
    lemma_tdiv_cancel(sin_theta, s);
    assert(s * sin_theta == sin_theta * s) by (nonlinear_arith);
    assert(fx_mul_s(ratio, sin_theta) == sin_theta);
}

} // verus!
