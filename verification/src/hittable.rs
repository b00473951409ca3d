//! Hit records and the scene aggregate.
//!
//! A `HitRecord` is the outcome of a successful intersection; its normal is
//! always oriented against the incoming ray. `HittableList` scans its
//! spheres and keeps the closest valid hit, shrinking the search interval
//! as it goes.

use vstd::prelude::*;

use crate::fixed::{abs_i, FX_INF, FX_ONE};
use crate::interval::{surrounds_s, Interval};
use crate::material::{material_wf, Material};
use crate::ray::{ray_wf, Ray, GEOM_LIM};
use crate::vec3::{dot_s, len_sq_s, negv, vb, Point3, Vec3, VEC_LIM};

pub mod sphere;

use sphere::{sphere_hit_s, sphere_wf, Sphere};

verus! {

#[derive(Clone, Copy, PartialEq, Eq, Structural, Debug)]
pub struct HitRecord {
    pub p: Point3,
    pub normal: Vec3,
    pub mat: Material,
    pub t: i128,
    pub front_face: bool,
}

/// A hit record as intersection produces it: the point and parameter are
/// bounded, the stored normal is roughly unit length, and the material is
/// well formed.
pub open spec fn rec_wf(rec: HitRecord) -> bool {
    vb(rec.p, GEOM_LIM as int) && vb(rec.normal, 2 * (FX_ONE as int)) && len_sq_s(rec.normal) >= 1
        && abs_i(rec.t as int) <= FX_INF as int && material_wf(rec.mat)
}

/// The face flag and oriented normal derived from an outward normal: the
/// hit is front-face exactly when the ray runs against the outward normal,
/// and the stored normal is flipped to oppose the ray otherwise.
pub open spec fn face_normal_s(ray: Ray, outward_normal: Vec3) -> (bool, Vec3) {
    let front_face = dot_s(ray.direction, outward_normal) < 0;
    (
        front_face,
        if front_face {
            outward_normal
        } else {
            negv(outward_normal)
        },
    )
}

/// The stored normal never runs with the ray: its dot product with the ray
/// direction is at most zero.
pub proof fn lemma_face_normal_opposes(ray: Ray, outward_normal: Vec3)
    requires
        vb(outward_normal, crate::fixed::FX_LIM as int),
    ensures
        dot_s(ray.direction, face_normal_s(ray, outward_normal).1) <= 0,
{
    if dot_s(ray.direction, outward_normal) >= 0 {
        crate::vec3::lemma_dot_neg(ray.direction, outward_normal);
    }
}

impl HitRecord {
    pub fn set_face_normal(&mut self, ray: &Ray, outward_normal: Vec3)
        requires
            vb(ray.direction, VEC_LIM as int),
            vb(outward_normal, VEC_LIM as int),
        ensures
            final (self).front_face == face_normal_s(*ray, outward_normal).0,
            final (self).normal == face_normal_s(*ray, outward_normal).1,
            final (self).p == old(self).p,
            final (self).mat == old(self).mat,
            final (self).t == old(self).t,
    {
        let d = ray.direction.dot(outward_normal);
        self.front_face = d < 0;
        self.normal = if self.front_face {
            outward_normal
        } else {
            outward_normal.neg()
        };
    }
}

/// The capability of being intersected by a ray within a parameter
/// interval, reporting the hit through a record.
pub trait Hittable {
    /// What the implementation asks of its caller.
    spec fn hit_req(&self, ray: Ray, t_range: Interval) -> bool;

    /// The hit the implementation reports, as a function of the ray and
    /// the query interval.
    spec fn hit_spec(&self, ray: Ray, t_range: Interval) -> Option<HitRecord>;

    fn hit(&self, ray: &Ray, t_range: Interval) -> (r: Option<HitRecord>)
        requires
            self.hit_req(*ray, t_range),
        ensures
            r == self.hit_spec(*ray, t_range),
    ;
}

pub struct HittableList {
    objects: Vec<Sphere>,
}

impl View for HittableList {
    type V = Seq<Sphere>;

    closed spec fn view(&self) -> Seq<Sphere> {
        self.objects@
    }
}

/// The closest hit among the first `n` spheres, scanning left to right and
/// shrinking the search ceiling to the best parameter found so far.
pub open spec fn list_hit_upto(
    objs: Seq<Sphere>,
    ray: Ray,
    t_range: Interval,
    n: int,
) -> Option<HitRecord>
    decreases n,
{
    if n <= 0 {
        None
    } else {
        let prev = list_hit_upto(objs, ray, t_range, n - 1);
        let ceiling = match prev {
            Some(rec) => rec.t,
            None => t_range.max,
        };
        match sphere_hit_s(objs[n - 1], ray, Interval { min: t_range.min, max: ceiling }) {
            Some(rec) => Some(rec),
            None => prev,
        }
    }
}

pub open spec fn list_hit_s(objs: Seq<Sphere>, ray: Ray, t_range: Interval) -> Option<HitRecord> {
    list_hit_upto(objs, ray, t_range, objs.len() as int)
}

impl HittableList {
    pub open spec fn wf(&self) -> bool {
        forall|i: int| 0 <= i < self@.len() ==> sphere_wf(#[trigger] self@[i])
    }

    pub fn new() -> (r: HittableList)
        ensures
            r@ =~= Seq::<Sphere>::empty(),
            r.wf(),
    {
        HittableList { objects: Vec::new() }
    }

    pub fn clear(&mut self)
        ensures
            final (self)@ =~= Seq::<Sphere>::empty(),
            final (self).wf(),
    {
        self.objects.clear();
    }

    /// What the scan asks of its caller: well-formed spheres and ray, and
    /// interval ends within the representable parameter range.
    pub open spec fn list_hit_req(&self, ray: Ray, t_range: Interval) -> bool {
        self.wf() && ray_wf(ray) && abs_i(t_range.min as int) <= FX_INF as int && abs_i(
            t_range.max as int,
        ) <= FX_INF as int
    }

    pub fn add(&mut self, obj: Sphere)
        requires
            sphere_wf(obj),
        ensures
            final (self)@ =~= old(self)@.push(obj),
            old(self).wf() ==> final (self).wf(),
    {
        self.objects.push(obj);
        proof {
            if old(self).wf() {
                assert forall|i: int| 0 <= i < self@.len() implies sphere_wf(#[trigger] self@[i]) by {
                    if i < old(self)@.len() {
                        assert(self@[i] == old(self)@[i]);
                    } else {
                        assert(self@[i] == obj);
                    }
                }
            }
        }
    }
}

impl Hittable for HittableList {
    open spec fn hit_req(&self, ray: Ray, t_range: Interval) -> bool {
        self.list_hit_req(ray, t_range)
    }

    open spec fn hit_spec(&self, ray: Ray, t_range: Interval) -> Option<HitRecord> {
        list_hit_s(self@, ray, t_range)
    }

    /// Linear scan for the closest hit: each sphere is queried within the
    /// interval capped at the best parameter found so far, so a candidate
    /// replaces the best hit only when strictly closer.
    fn hit(&self, ray: &Ray, t_range: Interval) -> (r: Option<HitRecord>) {
        let mut best: Option<HitRecord> = None;
        let mut closest: i128 = t_range.max;
        let n = self.objects.len();
        let mut i: usize = 0;
        while i < n
            invariant
                0 <= i <= n,
                n == self@.len(),
                self.wf(),
                ray_wf(*ray),
                abs_i(t_range.min as int) <= FX_INF as int,
                abs_i(t_range.max as int) <= FX_INF as int,
                best == list_hit_upto(self@, *ray, t_range, i as int),
                closest == match best {
                    Some(rec) => rec.t,
                    None => t_range.max,
                },
                abs_i(closest as int) <= FX_INF as int,
            decreases n - i,
        {
            let shrunk = Interval::new(t_range.min, closest);
            let res = self.objects[i].hit(ray, shrunk);
            proof {
                sphere::lemma_sphere_hit_props(self@[i as int], *ray, shrunk);
            }
            match res {
                Some(rec) => {
                    best = Some(rec);
                    closest = rec.t;
                },
                None => {},
            }
            i = i + 1;
        }
        best
    }
}

/// The scan reports exactly the closest valid hit: no hit only when every
/// sphere misses within the original interval, and otherwise a hit that
/// some sphere reports there and whose parameter none beats.
pub proof fn lemma_list_hit_closest(objs: Seq<Sphere>, ray: Ray, t_range: Interval, n: int)
    requires
        0 <= n <= objs.len(),
        forall|i: int| 0 <= i < objs.len() ==> sphere_wf(#[trigger] objs[i]),
        abs_i(t_range.min as int) <= FX_INF as int,
        abs_i(t_range.max as int) <= FX_INF as int,
    ensures
        list_hit_upto(objs, ray, t_range, n) is None ==> forall|i: int|
            0 <= i < n ==> sphere_hit_s(#[trigger] objs[i], ray, t_range) is None,
        list_hit_upto(objs, ray, t_range, n) matches Some(rec) ==> surrounds_s(
            t_range,
            rec.t as int,
        ) && (exists|i: int|
            0 <= i < n && sphere_hit_s(#[trigger] objs[i], ray, t_range) == Some(rec)) && (
        forall|i: int|
            0 <= i < n ==> match sphere_hit_s(#[trigger] objs[i], ray, t_range) {
                Some(other) => rec.t <= other.t,
                None => true,
            }),
    decreases n,
{
    if n > 0 {
        lemma_list_hit_closest(objs, ray, t_range, n - 1);
        let prev = list_hit_upto(objs, ray, t_range, n - 1);
        let ceiling = match prev {
            Some(rec) => rec.t,
            None => t_range.max,
        };
        let shrunk = Interval { min: t_range.min, max: ceiling };
        sphere::lemma_sphere_hit_shrink(objs[n - 1], ray, t_range, shrunk);
        sphere::lemma_sphere_hit_props(objs[n - 1], ray, t_range);
        let cur = sphere_hit_s(objs[n - 1], ray, shrunk);
        match cur {
            Some(rec) => {
                assert(sphere_hit_s(objs[n - 1], ray, t_range) == Some(rec));
            },
            None => {
                if prev is None {
                    assert(shrunk == t_range);
                }
            },
        }
    }
}

} // verus!
