//! Rays: a parametric line from an origin along a direction.

use vstd::prelude::*;

use crate::fixed::{abs_i, FX_INF, FX_LIM};
use crate::vec3::{addv, len_sq_s, scalev, vb, Point3, Vec3, VEC_LIM};

verus! {

/// Magnitude cap on scene geometry: sphere centres, radii, camera points
/// and ray endpoints all stay within 2^20 world units (2^36 fixed).
pub const GEOM_LIM: i128 = 68719476736;

/// A well-formed ray: bounded endpoints and a direction that is not
/// degenerately short.
pub open spec fn ray_wf(r: Ray) -> bool {
    vb(r.origin, GEOM_LIM as int) && vb(r.direction, GEOM_LIM as int) && len_sq_s(r.direction) >= 1
}

#[derive(Clone, Copy, PartialEq, Eq, Structural, Debug)]
pub struct Ray {
    pub origin: Point3,
    pub direction: Vec3,
}

/// The point a ray reaches at parameter `t`: `origin + t * direction`.
pub open spec fn at_s(r: Ray, t: int) -> Vec3 {
    addv(r.origin, scalev(r.direction, t))
}

impl Ray {
    pub fn new(origin: Point3, direction: Vec3) -> (r: Ray)
        ensures
            r.origin == origin,
            r.direction == direction,
    {
        Ray { origin, direction }
    }

    pub fn at(&self, t: i128) -> (r: Vec3)
        requires
            vb(self.origin, FX_LIM as int / 4),
            vb(self.direction, VEC_LIM as int),
            abs_i(t as int) <= FX_INF as int,
        ensures
            r == at_s(*self, t as int),
    {
        proof {
            crate::fixed::lemma_fx_mul_bound(
                self.direction.x as int,
                t as int,
                VEC_LIM as int,
                FX_INF as int,
            );
            crate::fixed::lemma_fx_mul_bound(
                self.direction.y as int,
                t as int,
                VEC_LIM as int,
                FX_INF as int,
            );
            crate::fixed::lemma_fx_mul_bound(
                self.direction.z as int,
                t as int,
                VEC_LIM as int,
                FX_INF as int,
            );
        }
        let moved = self.direction.scale(t);
        self.origin.add(moved)
    }
}

} // verus!
