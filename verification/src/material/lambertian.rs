//! The diffuse material: scatters toward the normal plus a random unit
//! vector, never absorbing, with attenuation equal to its albedo.

use vstd::prelude::*;

use crate::colour::{colour01, Colour};
use crate::fixed::FX_ONE;
use crate::hittable::{rec_wf, HitRecord};
use crate::ray::{ray_wf, Ray};
use crate::rng::RandomSource;
use crate::vec3::{
    addv, lemma_len_sq_min, near_zero_s, random_unit_vector, unit_sphere_sample_s, vb, Vec3,
};

verus! {

#[derive(Clone, Copy, PartialEq, Eq, Structural, Debug)]
pub struct Lambertian {
    pub albedo: Colour,
}

/// The diffuse direction for the unit-sphere draw `u`: the surface normal
/// nudged by the draw, or the normal alone when the two nearly cancel.
pub open spec fn lambertian_dir_s(rec: HitRecord, u: Vec3) -> Vec3 {
    let candidate = addv(rec.normal, u);
    if near_zero_s(candidate) {
        rec.normal
    } else {
        candidate
    }
}

impl Lambertian {
    pub fn new(albedo: Colour) -> (r: Lambertian)
        requires
            colour01(albedo),
        ensures
            r.albedo == albedo,
    {
        Lambertian { albedo }
    }

    /// Always scatters: the direction is the surface normal nudged by a
    /// random unit vector, falling back to the normal itself when the two
    /// almost cancel; the attenuation is exactly the albedo.
    pub fn scatter<R: RandomSource>(&self, ray: &Ray, rec: &HitRecord, rng: &mut R) -> (r: Option<
        (Colour, Ray),
    >)
        requires
            colour01(self.albedo),
            ray_wf(*ray),
            rec_wf(*rec),
        ensures
            r.is_some(),
            r.unwrap().0 == self.albedo,
            crate::material::scatter_common(r, *rec),
            exists|u: Vec3|
                #[trigger] unit_sphere_sample_s(u) && r == Some(
                    (self.albedo, Ray { origin: rec.p, direction: lambertian_dir_s(*rec, u) }),
                ),
    {
        let u = random_unit_vector(rng);
        let candidate = rec.normal.add(u);
        let direction = if candidate.near_zero() {
            rec.normal
        } else {
            proof {
                lemma_len_sq_min(candidate);
            }
            candidate
        };
        let r = Some((self.albedo, Ray::new(rec.p, direction)));
        proof {
            assert(direction == lambertian_dir_s(*rec, u));
        }
        r
    }
}

} // verus!
