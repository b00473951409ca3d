//! The sphere primitive and its ray intersection test.

use vstd::prelude::*;

use crate::fixed::{
    abs_i, fx_div, fx_div_s, fx_mul, fx_mul_s, fx_sqrt, fx_sqrt_s, lemma_fx_mul_bound,
    lemma_mul_abs_le, lemma_square_le, FX_INF, FX_LIM, FX_ONE,
};
use crate::hittable::{face_normal_s, rec_wf, HitRecord, Hittable};
use crate::interval::{surrounds_s, Interval};
use crate::material::{material_wf, Material};
use crate::ray::{at_s, ray_wf, Ray, GEOM_LIM};
use crate::vec3::{
    divv, dot_s, len_sq_s, lemma_dot_bound, negv, subv, vb, Point3, Vec3, VEC_LIM,
};

verus! {

#[derive(Clone, Copy, PartialEq, Eq, Structural, Debug)]
pub struct Sphere {
    pub centre: Point3,
    pub radius: i128,
    pub mat: Material,
}

pub open spec fn sphere_wf(s: Sphere) -> bool {
    vb(s.centre, GEOM_LIM as int) && 0 <= s.radius <= GEOM_LIM && material_wf(s.mat)
}

/// The vector from the ray's origin to the sphere's centre.
pub open spec fn sphere_oc_s(s: Sphere, ray: Ray) -> Vec3 {
    subv(s.centre, ray.origin)
}

/// Quadratic coefficient `a`: the squared length of the ray direction.
pub open spec fn sphere_a_s(s: Sphere, ray: Ray) -> int {
    len_sq_s(ray.direction)
}

/// Half the negated linear coefficient: `direction . oc`.
pub open spec fn sphere_h_s(s: Sphere, ray: Ray) -> int {
    dot_s(ray.direction, sphere_oc_s(s, ray))
}

/// Constant coefficient: `|oc|^2 - radius^2`.
pub open spec fn sphere_c_s(s: Sphere, ray: Ray) -> int {
    len_sq_s(sphere_oc_s(s, ray)) - fx_mul_s(s.radius as int, s.radius as int)
}

pub open spec fn sphere_disc_s(s: Sphere, ray: Ray) -> int {
    fx_mul_s(sphere_h_s(s, ray), sphere_h_s(s, ray)) - fx_mul_s(
        sphere_a_s(s, ray),
        sphere_c_s(s, ray),
    )
}

pub open spec fn sphere_sqrtd_s(s: Sphere, ray: Ray) -> int {
    fx_sqrt_s(sphere_disc_s(s, ray))
}

/// The smaller quadratic root `(h - sqrt(disc)) / a`.
pub open spec fn sphere_root1_s(s: Sphere, ray: Ray) -> int {
    fx_div_s(sphere_h_s(s, ray) - sphere_sqrtd_s(s, ray), sphere_a_s(s, ray))
}

/// The larger quadratic root `(h + sqrt(disc)) / a`.
pub open spec fn sphere_root2_s(s: Sphere, ray: Ray) -> int {
    fx_div_s(sphere_h_s(s, ray) + sphere_sqrtd_s(s, ray), sphere_a_s(s, ray))
}

/// The record built for a hit at parameter `root`; the hit is dropped when
/// the point or the outward normal falls outside the renderer's numeric
/// range (which no geometrically sane scene produces).
pub open spec fn sphere_rec_s(s: Sphere, ray: Ray, root: int) -> Option<HitRecord> {
    let p = at_s(ray, root);
    if !vb(p, GEOM_LIM as int) {
        None
    } else {
        let outward = divv(subv(p, s.centre), s.radius as int);
        if !(vb(outward, 2 * (FX_ONE as int)) && len_sq_s(outward) >= 1) {
            None
        } else {
            let oriented = face_normal_s(ray, outward);
            Some(
                HitRecord {
                    p,
                    normal: oriented.1,
                    mat: s.mat,
                    t: root as i128,
                    front_face: oriented.0,
                },
            )
        }
    }
}

/// The full intersection test: solve the quadratic, try the smaller root
/// first, then the larger, requiring the accepted root to lie strictly
/// inside the query interval.
pub open spec fn sphere_hit_s(s: Sphere, ray: Ray, t_range: Interval) -> Option<HitRecord> {
    if s.radius <= 0 {
        None
    } else if sphere_a_s(s, ray) <= 0 {
        None
    } else if sphere_disc_s(s, ray) < 0 {
        None
    } else {
        let r1 = sphere_root1_s(s, ray);
        let r2 = sphere_root2_s(s, ray);
        if surrounds_s(t_range, r1) {
            sphere_rec_s(s, ray, r1)
        } else if surrounds_s(t_range, r2) {
            sphere_rec_s(s, ray, r2)
        } else {
            None
        }
    }
}

/// Every reported hit is well formed: the record's point, normal, material
/// and parameter are bounded and consistent, and the parameter lies strictly
/// inside the query interval.
pub proof fn lemma_sphere_hit_props(s: Sphere, ray: Ray, t_range: Interval)
    requires
        sphere_wf(s),
        abs_i(t_range.min as int) <= FX_INF as int,
        abs_i(t_range.max as int) <= FX_INF as int,
    ensures
        sphere_hit_s(s, ray, t_range) matches Some(rec) ==> rec_wf(rec) && surrounds_s(
            t_range,
            rec.t as int,
        ) && rec.mat == s.mat && rec.p == at_s(ray, rec.t as int),
{
    if sphere_hit_s(s, ray, t_range) is Some {
        let rec = sphere_hit_s(s, ray, t_range).unwrap();
        let r1 = sphere_root1_s(s, ray);
        let r2 = sphere_root2_s(s, ray);
        let root = if surrounds_s(t_range, r1) {
            r1
        } else {
            r2
        };
        assert(sphere_rec_s(s, ray, root) == Some(rec));
        let p = at_s(ray, root);
        let outward = divv(subv(p, s.centre), s.radius as int);
        assert(vb(outward, 2 * (FX_ONE as int)) && len_sq_s(outward) >= 1);
        if !(dot_s(ray.direction, outward) < 0) {
            crate::vec3::lemma_len_sq_neg(outward);
        }
    }
}

/// The reported parameter is one of the two quadratic roots, the roots are
/// ordered, and the smaller root wins whenever it lies inside the interval.
pub proof fn lemma_sphere_hit_nearest_root(s: Sphere, ray: Ray, t_range: Interval)
    ensures
        sphere_hit_s(s, ray, t_range) matches Some(rec) ==> {
            let r1 = sphere_root1_s(s, ray);
            let r2 = sphere_root2_s(s, ray);
            r1 <= r2 && (rec.t == r1 || rec.t == r2) && (surrounds_s(t_range, r1) ==> rec.t == r1)
        },
{
    if sphere_hit_s(s, ray, t_range) is Some {
        lemma_sphere_roots_ordered(s, ray);
    }
}

/// With a non-negative discriminant the smaller root is indeed no larger
/// than the larger one.
pub proof fn lemma_sphere_roots_ordered(s: Sphere, ray: Ray)
    requires
        sphere_a_s(s, ray) > 0,
        sphere_disc_s(s, ray) >= 0,
    ensures
        sphere_sqrtd_s(s, ray) >= 0,
        sphere_root1_s(s, ray) <= sphere_root2_s(s, ray),
{
    let h = sphere_h_s(s, ray);
    let a = sphere_a_s(s, ray);
    let disc = sphere_disc_s(s, ray);
    crate::fixed::lemma_isqrt_s(disc * (FX_ONE as int));
    let sq = sphere_sqrtd_s(s, ray);
    assert((h - sq) * (FX_ONE as int) <= (h + sq) * (FX_ONE as int)) by (nonlinear_arith)
        requires
            sq >= 0,
            FX_ONE == 65536,
    ;
    crate::fixed::lemma_tdiv_mono((h - sq) * (FX_ONE as int), (h + sq) * (FX_ONE as int), a);
}

/// A ray that starts outside the sphere and does not run toward its centre
/// reports no hit for any interval of non-negative parameters.
pub proof fn lemma_sphere_miss_outside_receding(s: Sphere, ray: Ray, t_range: Interval)
    requires
        sphere_c_s(s, ray) > 0,
        sphere_h_s(s, ray) <= 0,
        t_range.min >= 0,
    ensures
        sphere_hit_s(s, ray, t_range) is None,
{
    let a = sphere_a_s(s, ray);
    let h = sphere_h_s(s, ray);
    let c = sphere_c_s(s, ray);
    let disc = sphere_disc_s(s, ray);
    if s.radius > 0 && a > 0 && disc >= 0 {
        let s_one = FX_ONE as int;
        assert(a * c > 0) by (nonlinear_arith)
            requires
                a > 0,
                c > 0,
        ;
        crate::fixed::lemma_tdiv_facts(a * c, s_one);
        assert(fx_mul_s(a, c) >= 0);
        assert(h * h >= 0) by (nonlinear_arith);
        crate::fixed::lemma_tdiv_facts(h * h, s_one);
        assert(fx_mul_s(h, h) * s_one <= h * h);
        assert(disc <= fx_mul_s(h, h));
        assert(disc * s_one <= fx_mul_s(h, h) * s_one) by (nonlinear_arith)
            requires
                disc <= fx_mul_s(h, h),
                s_one == 65536,
        ;
        crate::fixed::lemma_isqrt_s(disc * s_one);
        let sq = sphere_sqrtd_s(s, ray);
        assert(sq * sq <= disc * s_one);
        assert((-h) * (-h) == h * h) by (nonlinear_arith);
        lemma_square_le(sq, -h);
        // both roots are at most zero, so neither can exceed the interval's
        // non-negative lower end
        assert((h - sq) * s_one <= 0) by (nonlinear_arith)
            requires
                h - sq <= 0,
                s_one == 65536,
        ;
        assert((h + sq) * s_one <= 0) by (nonlinear_arith)
            requires
                h + sq <= 0,
                s_one == 65536,
        ;
        crate::fixed::lemma_tdiv_facts((h - sq) * s_one, a);
        crate::fixed::lemma_tdiv_facts((h + sq) * s_one, a);
        assert(sphere_root1_s(s, ray) <= 0);
        assert(sphere_root2_s(s, ray) <= 0);
        assert(!surrounds_s(t_range, sphere_root1_s(s, ray)));
        assert(!surrounds_s(t_range, sphere_root2_s(s, ray)));
    }
}

/// Shrinking the upper end of the query interval keeps exactly the hits
/// whose parameter still lies below the new end: the scene scan relies on
/// this to compare candidates against the closest hit so far.
pub proof fn lemma_sphere_hit_shrink(s: Sphere, ray: Ray, t_range: Interval, t2: Interval)
    requires
        t2.min == t_range.min,
        t2.max <= t_range.max,
    ensures
        sphere_hit_s(s, ray, t2) == (match sphere_hit_s(s, ray, t_range) {
            Some(rec) => if rec.t < t2.max {
                Some(rec)
            } else {
                None::<HitRecord>
            },
            None => None::<HitRecord>,
        }),
{
    if s.radius > 0 && sphere_a_s(s, ray) > 0 && sphere_disc_s(s, ray) >= 0 {
        lemma_sphere_roots_ordered(s, ray);
        let r1 = sphere_root1_s(s, ray);
        let r2 = sphere_root2_s(s, ray);
        if surrounds_s(t_range, r1) {
            if sphere_rec_s(s, ray, r1) is Some {
                assert(sphere_rec_s(s, ray, r1).unwrap().t == r1);
            }
        } else if surrounds_s(t_range, r2) {
            if sphere_rec_s(s, ray, r2) is Some {
                assert(sphere_rec_s(s, ray, r2).unwrap().t == r2);
            }
        }
    }
}

impl Sphere {
    /// A sphere from a centre, radius and material; a negative radius is
    /// clamped to zero, and a zero-radius sphere never intersects.
    pub fn new(centre: Point3, radius: i128, mat: Material) -> (r: Sphere)
        requires
            vb(centre, GEOM_LIM as int),
            radius <= GEOM_LIM,
            material_wf(mat),
        ensures
            r.centre == centre,
            r.mat == mat,
            r.radius == if radius >= 0 {
                radius
            } else {
                0
            },
            sphere_wf(r),
    {
        let clamped = if radius >= 0 {
            radius
        } else {
            0
        };
        Sphere { centre, radius: clamped, mat }
    }
}

impl Hittable for Sphere {
    open spec fn hit_req(&self, ray: Ray, t_range: Interval) -> bool {
        sphere_wf(*self) && ray_wf(ray) && abs_i(t_range.min as int) <= FX_INF as int && abs_i(
            t_range.max as int,
        ) <= FX_INF as int
    }

    open spec fn hit_spec(&self, ray: Ray, t_range: Interval) -> Option<HitRecord> {
        sphere_hit_s(*self, ray, t_range)
    }

    fn hit(&self, ray: &Ray, t_range: Interval) -> (r: Option<HitRecord>) {
        if self.radius <= 0 {
            return None;
        }
        let oc = self.centre.sub(ray.origin);
        let a = ray.direction.length_squared();
        proof {
            lemma_dot_bound(ray.direction, ray.direction, GEOM_LIM as int, GEOM_LIM as int);
            lemma_dot_bound(ray.direction, oc, GEOM_LIM as int, 2 * GEOM_LIM as int);
            lemma_dot_bound(oc, oc, 2 * GEOM_LIM as int, 2 * GEOM_LIM as int);
            lemma_fx_mul_bound(self.radius as int, self.radius as int, GEOM_LIM as int, GEOM_LIM as int);
        }
        let h = ray.direction.dot(oc);
        let rsq = fx_mul(self.radius, self.radius);
        let c = oc.length_squared() - rsq;
        proof {
            lemma_mul_abs_le(h as int, h as int, 0x1800000000000000, 0x1800000000000000);
            lemma_mul_abs_le(a as int, c as int, 0x1800000000000000, 0x2000000000000000);
            lemma_fx_mul_bound(h as int, h as int, 0x1800000000000000, 0x1800000000000000);
            lemma_fx_mul_bound(a as int, c as int, 0x1800000000000000, 0x2000000000000000);
        }
        let hh = fx_mul(h, h);
        let ac = fx_mul(a, c);
        let discriminant = hh - ac;
        if discriminant < 0 {
            return None;
        }
        proof {
            assert(discriminant as int * (FX_ONE as int) <= FX_LIM as int) by (nonlinear_arith)
                requires
                    0 <= discriminant as int,
                    discriminant as int <= 0x1000000000000000000000000000,
                    FX_ONE == 65536,
                    FX_LIM == 85070591730234615865843651857942052864,
            ;
        }
        let sqrtd = fx_sqrt(discriminant);
        proof {
            assert(sqrtd as int <= 0x4000000000000000) by (nonlinear_arith)
                requires
                    0 <= sqrtd as int,
                    sqrtd as int * sqrtd as int <= discriminant as int * 65536,
                    discriminant as int <= 0x1000000000000000000000000000,
            ;
            lemma_mul_abs_le(h as int - sqrtd as int, FX_ONE as int, 0x8000000000000000, FX_ONE as int);
            lemma_mul_abs_le(h as int + sqrtd as int, FX_ONE as int, 0x8000000000000000, FX_ONE as int);
        }
        let root1 = fx_div(h - sqrtd, a);
        let root2 = fx_div(h + sqrtd, a);
        let root = if t_range.surrounds(root1) {
            root1
        } else if t_range.surrounds(root2) {
            root2
        } else {
            return None;
        };
        let p = ray.at(root);
        if !p.bounded_by(GEOM_LIM) {
            return None;
        }
        let diff = p.sub(self.centre);
        let outward_normal = diff.div_fx(self.radius);
        if !outward_normal.bounded_by(2 * FX_ONE) {
            return None;
        }
        let normal_len_sq = outward_normal.length_squared();
        if normal_len_sq < 1 {
            return None;
        }
        let mut rec = HitRecord {
            p,
            normal: outward_normal,
            mat: self.mat,
            t: root,
            front_face: false,
        };
        rec.set_face_normal(ray, outward_normal);
        Some(rec)
    }
}

} // verus!
