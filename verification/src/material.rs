//! Material scattering policies.
//!
//! A material decides whether a ray continues after a hit and with what
//! attenuation; absorption is reported as `None`. The set of materials is
//! closed, so dispatch is a tagged enum over the three policies.

use vstd::prelude::*;

use crate::colour::{colour01, Colour};
use crate::fixed::FX_ONE;
use crate::hittable::{rec_wf, HitRecord};
use crate::ray::{ray_wf, Ray};
use crate::rng::RandomSource;
use crate::vec3::{v3, Vec3};

pub mod dielectric;
pub mod lambertian;
pub mod metal;

use dielectric::{dielectric_dir_s, Dielectric};
use lambertian::{lambertian_dir_s, Lambertian};
use metal::{metal_scatter_s, Metal};

verus! {

#[derive(Clone, Copy, PartialEq, Eq, Structural, Debug)]
pub enum Material {
    Lambertian(Lambertian),
    Metal(Metal),
    Dielectric(Dielectric),
}

pub open spec fn material_wf(m: Material) -> bool {
    match m {
        Material::Lambertian(l) => colour01(l.albedo),
        Material::Metal(mt) => colour01(mt.albedo) && 0 <= mt.fuzz <= FX_ONE,
        Material::Dielectric(d) => FX_ONE / 4 <= d.refraction_index <= 4 * FX_ONE,
    }
}

/// What every successful scatter guarantees: a fractional attenuation and a
/// well-formed outgoing ray that starts at the hit point.
pub open spec fn scatter_common(r: Option<(Colour, Ray)>, rec: HitRecord) -> bool {
    match r {
        Some(pair) => colour01(pair.0) && pair.1.origin == rec.p && ray_wf(pair.1),
        None => true,
    }
}

/// The full outcome envelope of a scatter: for each material, the result
/// is what that material's policy produces for some admissible draw.
pub open spec fn scatter_outcome_s(
    m: Material,
    ray: Ray,
    rec: HitRecord,
    r: Option<(Colour, Ray)>,
) -> bool {
    match m {
        Material::Lambertian(l) => exists|u: Vec3|
            #[trigger] crate::vec3::unit_sphere_sample_s(u) && r == Some(
                (l.albedo, Ray { origin: rec.p, direction: lambertian_dir_s(rec, u) }),
            ),
        Material::Metal(mt) => exists|u: Vec3|
            crate::vec3::unit_sphere_sample_s(u) && r == #[trigger] metal_scatter_s(
                mt,
                ray,
                rec,
                u,
            ),
        Material::Dielectric(d) => exists|draw: int|
            0 <= draw < FX_ONE && r == Some(
                (
                    v3(FX_ONE as int, FX_ONE as int, FX_ONE as int),
                    Ray { origin: rec.p, direction: #[trigger] dielectric_dir_s(d, ray, rec, draw) },
                ),
            ),
    }
}

impl Material {
    /// Scatter an incoming ray at a hit, producing an attenuation and an
    /// outgoing ray, or `None` for absorption.
    pub fn scatter<R: RandomSource>(&self, ray: &Ray, rec: &HitRecord, rng: &mut R) -> (r: Option<
        (Colour, Ray),
    >)
        requires
            material_wf(*self),
            ray_wf(*ray),
            rec_wf(*rec),
        ensures
            scatter_common(r, *rec),
            scatter_outcome_s(*self, *ray, *rec, r),
            self matches Material::Lambertian(l) ==> r.is_some() && r.unwrap().0 == l.albedo,
            self matches Material::Metal(mt) ==> (r matches Some(pair) ==> pair.0 == mt.albedo)
                && (mt.fuzz == 0 ==> r == metal::metal_scatter_s(*mt, *ray, *rec, v3(0, 0, 0))),
            self matches Material::Metal(mt) ==> exists|u: crate::vec3::Vec3|
                crate::vec3::vb(u, 2 * (FX_ONE as int)) && r == #[trigger] metal::metal_scatter_s(
                    *mt,
                    *ray,
                    *rec,
                    u,
                ),
            self matches Material::Dielectric(d) ==> r.is_some() && r.unwrap().0 == v3(
                FX_ONE as int,
                FX_ONE as int,
                FX_ONE as int,
            ) && exists|draw: int|
                0 <= draw < FX_ONE && r.unwrap().1 == (Ray {
                    origin: rec.p,
                    direction: #[trigger] dielectric::dielectric_dir_s(*d, *ray, *rec, draw),
                }),
    {
        match self {
            Material::Lambertian(l) => l.scatter(ray, rec, rng),
            Material::Metal(mt) => mt.scatter(ray, rec, rng),
            Material::Dielectric(d) => d.scatter(ray, rec, rng),
        }
    }
}

} // verus!
