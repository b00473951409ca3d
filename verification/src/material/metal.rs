//! The reflective material: mirrors the incoming direction about the
//! normal, optionally fuzzed, absorbing rays that end up inside the surface.

use vstd::prelude::*;

use crate::colour::{colour01, Colour};
use crate::fixed::{abs_i, lemma_fx_mul_bound, FX_ONE};
use crate::hittable::{rec_wf, HitRecord};
use crate::ray::{ray_wf, Ray, GEOM_LIM};
use crate::rng::RandomSource;
use crate::vec3::{
    addv, dot_s, len_sq_s, random_unit_vector, reflect, reflect_s, scalev, unit_sphere_sample_s,
    unitv, v3, vb, Vec3,
};

verus! {

#[derive(Clone, Copy, PartialEq, Eq, Structural, Debug)]
pub struct Metal {
    pub albedo: Colour,
    pub fuzz: i128,
}

/// What metal scattering returns given the unit-sphere draw `u`: the
/// reflected direction, normalised and perturbed by `fuzz * u`; the ray is
/// absorbed when the perturbed direction points into the surface or
/// degenerates to nearly nothing.
pub open spec fn metal_scatter_s(m: Metal, ray: Ray, rec: HitRecord, u: Vec3) -> Option<
    (Colour, Ray),
> {
    let reflected = reflect_s(ray.direction, rec.normal);
    if len_sq_s(reflected) < 1 {
        None
    } else {
        let direction = addv(unitv(reflected), scalev(u, m.fuzz as int));
        if dot_s(direction, rec.normal) > 0 && len_sq_s(direction) >= 1 {
            Some((m.albedo, Ray { origin: rec.p, direction }))
        } else {
            None
        }
    }
}

impl Metal {
    /// A metal from an albedo and a roughness; the roughness is clamped
    /// into `[0, 1]` so that fuzzing cannot scatter below the surface.
    pub fn new(albedo: Colour, fuzz: i128) -> (r: Metal)
        requires
            colour01(albedo),
        ensures
            r.albedo == albedo,
            r.fuzz == if fuzz < 0 {
                0
            } else if fuzz > FX_ONE {
                FX_ONE as int
            } else {
                fuzz as int
            },
    {
        let clamped = if fuzz < 0 {
            0
        } else if fuzz > FX_ONE {
            FX_ONE
        } else {
            fuzz
        };
        Metal { albedo, fuzz: clamped }
    }

    /// Scatter by mirror reflection: deterministic when `fuzz` is zero.
    pub fn scatter<R: RandomSource>(&self, ray: &Ray, rec: &HitRecord, rng: &mut R) -> (r: Option<
        (Colour, Ray),
    >)
        requires
            colour01(self.albedo),
            0 <= self.fuzz <= FX_ONE,
            ray_wf(*ray),
            rec_wf(*rec),
        ensures
            crate::material::scatter_common(r, *rec),
            r matches Some(pair) ==> pair.0 == self.albedo,
            exists|u: Vec3|
                unit_sphere_sample_s(u) && vb(u, 2 * (FX_ONE as int)) && r == #[trigger] metal_scatter_s(
                    *self,
                    *ray,
                    *rec,
                    u,
                ),
            self.fuzz == 0 ==> r == metal_scatter_s(*self, *ray, *rec, v3(0, 0, 0)),
    {
        let u = random_unit_vector(rng);
        let reflected = reflect(ray.direction, rec.normal);
        let reflected_len_sq = reflected.length_squared();
        if reflected_len_sq < 1 {
            proof {
                assert(metal_scatter_s(*self, *ray, *rec, u) == r_none());
                if self.fuzz == 0 {
                    lemma_metal_fuzz0(*self, *ray, *rec, u);
                }
            }
            return None;
        }
        let unit_reflected = reflected.unit();
        let nudge = u.scale(self.fuzz);
        proof {
            lemma_fx_mul_bound(u.x as int, self.fuzz as int, 2 * (FX_ONE as int), FX_ONE as int);
            lemma_fx_mul_bound(u.y as int, self.fuzz as int, 2 * (FX_ONE as int), FX_ONE as int);
            lemma_fx_mul_bound(u.z as int, self.fuzz as int, 2 * (FX_ONE as int), FX_ONE as int);
        }
        let direction = unit_reflected.add(nudge);
        let alignment = direction.dot(rec.normal);
        let direction_len_sq = direction.length_squared();
        let r = if alignment > 0 && direction_len_sq >= 1 {
            Some((self.albedo, Ray::new(rec.p, direction)))
        } else {
            None
        };
        proof {
            assert(r == metal_scatter_s(*self, *ray, *rec, u));
            if self.fuzz == 0 {
                lemma_metal_fuzz0(*self, *ray, *rec, u);
            }
        }
        r
    }
}

/// Shorthand for the absorbed outcome.
pub open spec fn r_none() -> Option<(Colour, Ray)> {
    None
}

/// With zero roughness the draw does not matter: the perturbation is the
/// zero vector, so scattering is deterministic.
pub proof fn lemma_metal_fuzz0(m: Metal, ray: Ray, rec: HitRecord, u: Vec3)
    requires
        m.fuzz == 0,
    ensures
        metal_scatter_s(m, ray, rec, u) == metal_scatter_s(m, ray, rec, v3(0, 0, 0)),
{
    vstd::arithmetic::div_mod::lemma_div_of0(FX_ONE as int);
    assert(u.x as int * 0 == 0) by (nonlinear_arith);
    assert(u.y as int * 0 == 0) by (nonlinear_arith);
    assert(u.z as int * 0 == 0) by (nonlinear_arith);
    assert(scalev(u, 0) == v3(0, 0, 0));
    assert(scalev(v3(0, 0, 0), 0) == v3(0, 0, 0));
}

} // verus!
