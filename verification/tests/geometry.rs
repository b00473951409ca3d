use raytracer::fixed::{fx_div, fx_mul, fx_sqrt, FX_INF, FX_ONE};
use raytracer::hittable::sphere::Sphere;
use raytracer::hittable::{Hittable, HittableList};
use raytracer::interval::Interval;
use raytracer::material::lambertian::Lambertian;
use raytracer::material::Material;
use raytracer::ray::Ray;
use raytracer::rng::{RandomSource, ReplayRandom};
use raytracer::vec3::Vec3;

fn grey() -> Material {
    Material::Lambertian(Lambertian::new(Vec3::new(FX_ONE / 2, FX_ONE / 2, FX_ONE / 2)))
}

#[test]
fn fixed_point_products_truncate() {
    assert_eq!(fx_mul(FX_ONE, FX_ONE), FX_ONE);
    assert_eq!(fx_mul(FX_ONE / 2, FX_ONE / 2), FX_ONE / 4);
    assert_eq!(fx_mul(3 * FX_ONE, -2 * FX_ONE), -6 * FX_ONE);
    assert_eq!(fx_mul(1, 1), 0);
    assert_eq!(fx_div(FX_ONE, 2 * FX_ONE), FX_ONE / 2);
    assert_eq!(fx_div(-FX_ONE, 4 * FX_ONE), -FX_ONE / 4);
}

#[test]
fn fixed_point_square_roots() {
    assert_eq!(fx_sqrt(FX_ONE), FX_ONE);
    assert_eq!(fx_sqrt(4 * FX_ONE), 2 * FX_ONE);
    assert_eq!(fx_sqrt(FX_ONE / 4), FX_ONE / 2);
    assert_eq!(fx_sqrt(0), 0);
}

#[test]
fn interval_queries() {
    let i = Interval::new(-FX_ONE, FX_ONE);
    assert!(i.contains(0));
    assert!(i.contains(FX_ONE));
    assert!(!i.surrounds(FX_ONE));
    assert!(i.surrounds(FX_ONE - 1));
    assert!(!i.contains(FX_ONE + 1));
    assert_eq!(i.size(), 2 * FX_ONE);
    assert_eq!(i.clamp(3 * FX_ONE), FX_ONE);
    assert_eq!(i.clamp(-3 * FX_ONE), -FX_ONE);
    assert_eq!(i.clamp(17), 17);
}

#[test]
fn empty_interval_is_default() {
    let d = Interval::default();
    let e = Interval::empty();
    assert_eq!(d, e);
    assert!(!d.contains(0));
    let u = Interval::universe();
    assert!(u.contains(FX_INF - 1));
    assert!(u.contains(1 - FX_INF));
}

#[test]
fn vector_algebra() {
    let a = Vec3::new(FX_ONE, 2 * FX_ONE, 3 * FX_ONE);
    let b = Vec3::new(4 * FX_ONE, 5 * FX_ONE, 6 * FX_ONE);
    assert_eq!(a.add(b), Vec3::new(5 * FX_ONE, 7 * FX_ONE, 9 * FX_ONE));
    assert_eq!(b.sub(a), Vec3::new(3 * FX_ONE, 3 * FX_ONE, 3 * FX_ONE));
    assert_eq!(a.neg(), Vec3::new(-FX_ONE, -2 * FX_ONE, -3 * FX_ONE));
    assert_eq!(a.dot(b), 32 * FX_ONE);
    assert_eq!(a.cross(b), Vec3::new(-3 * FX_ONE, 6 * FX_ONE, -3 * FX_ONE));
    assert_eq!(a.scale(2 * FX_ONE), Vec3::new(2 * FX_ONE, 4 * FX_ONE, 6 * FX_ONE));
    assert_eq!(a.mul(b), Vec3::new(4 * FX_ONE, 10 * FX_ONE, 18 * FX_ONE));
    assert_eq!(a.length_squared(), 14 * FX_ONE);
    assert_eq!(Vec3::new(3 * FX_ONE, 4 * FX_ONE, 0).length(), 5 * FX_ONE);
}

#[test]
fn unit_vectors_and_near_zero() {
    let v = Vec3::new(0, -3 * FX_ONE, 4 * FX_ONE);
    let u = v.unit();
    assert_eq!(u, Vec3::new(0, -39321, 52428));
    assert!(Vec3::new(255, -255, 0).near_zero());
    assert!(!Vec3::new(256, 0, 0).near_zero());
}

#[test]
fn reflection_is_mirrorlike() {
    let v = Vec3::new(FX_ONE, -FX_ONE, 0);
    let n = Vec3::new(0, FX_ONE, 0);
    assert_eq!(raytracer::vec3::reflect(v, n), Vec3::new(FX_ONE, FX_ONE, 0));
}

#[test]
fn refraction_at_unity_ratio_is_straight() {
    let uv = Vec3::new(0, 0, -FX_ONE);
    let n = Vec3::new(0, 0, FX_ONE);
    assert_eq!(raytracer::vec3::refract(uv, n, FX_ONE), uv);
}

#[test]
fn ray_evaluation() {
    let r = Ray::new(Vec3::new(FX_ONE, 0, 0), Vec3::new(0, FX_ONE, 0));
    assert_eq!(r.at(2 * FX_ONE), Vec3::new(FX_ONE, 2 * FX_ONE, 0));
    assert_eq!(r.at(0), r.origin);
}

#[test]
fn sphere_head_on_hit_reports_near_root() {
    let s = Sphere::new(Vec3::new(0, 0, -2 * FX_ONE), FX_ONE, grey());
    let ray = Ray::new(Vec3::new(0, 0, 0), Vec3::new(0, 0, -FX_ONE));
    let rec = s.hit(&ray, Interval::new(66, FX_INF)).expect("must hit");
    assert_eq!(rec.t, FX_ONE);
    assert_eq!(rec.p, Vec3::new(0, 0, -FX_ONE));
    assert_eq!(rec.normal, Vec3::new(0, 0, FX_ONE));
    assert!(rec.front_face);
    // the hit point lies at exactly the radius from the centre
    let from_centre = rec.p.sub(Vec3::new(0, 0, -2 * FX_ONE));
    assert_eq!(from_centre.length(), FX_ONE);
}

#[test]
fn sphere_back_face_flags_inside_hit() {
    // from the centre outward, the hit is on the far side of the surface
    let s = Sphere::new(Vec3::new(0, 0, 0), FX_ONE, grey());
    let ray = Ray::new(Vec3::new(0, 0, 0), Vec3::new(0, 0, -FX_ONE));
    let rec = s.hit(&ray, Interval::new(66, FX_INF)).expect("must hit");
    assert_eq!(rec.t, FX_ONE);
    assert!(!rec.front_face);
    assert_eq!(rec.normal, Vec3::new(0, 0, FX_ONE));
}

#[test]
fn sphere_missed_when_receding() {
    // origin outside, direction pointing away: no intersection
    let s = Sphere::new(Vec3::new(0, 0, -4 * FX_ONE), FX_ONE, grey());
    let ray = Ray::new(Vec3::new(0, 0, 0), Vec3::new(0, 0, FX_ONE));
    assert!(s.hit(&ray, Interval::new(66, FX_INF)).is_none());
}

#[test]
fn sphere_missed_when_aimed_aside() {
    let s = Sphere::new(Vec3::new(0, 0, -4 * FX_ONE), FX_ONE, grey());
    let ray = Ray::new(Vec3::new(0, 0, 0), Vec3::new(0, 4 * FX_ONE, -FX_ONE));
    assert!(s.hit(&ray, Interval::new(66, FX_INF)).is_none());
}

#[test]
fn zero_radius_sphere_never_hits() {
    let s = Sphere::new(Vec3::new(0, 0, -2 * FX_ONE), -5 * FX_ONE, grey());
    assert_eq!(s.radius, 0);
    let ray = Ray::new(Vec3::new(0, 0, 0), Vec3::new(0, 0, -FX_ONE));
    assert!(s.hit(&ray, Interval::new(66, FX_INF)).is_none());
}

#[test]
fn interval_bounds_exclude_roots() {
    let s = Sphere::new(Vec3::new(0, 0, -2 * FX_ONE), FX_ONE, grey());
    let ray = Ray::new(Vec3::new(0, 0, 0), Vec3::new(0, 0, -FX_ONE));
    // near root at 1, far root at 3: a ceiling below 1 excludes both
    assert!(s.hit(&ray, Interval::new(66, FX_ONE - 1)).is_none());
    // a floor above 1 skips to the far root
    let rec = s.hit(&ray, Interval::new(2 * FX_ONE, FX_INF)).expect("far root");
    assert_eq!(rec.t, 3 * FX_ONE);
    assert!(!rec.front_face);
}

#[test]
fn list_reports_closest_of_two() {
    let mut world = HittableList::new();
    world.add(Sphere::new(Vec3::new(0, 0, -6 * FX_ONE), FX_ONE, grey()));
    world.add(Sphere::new(Vec3::new(0, 0, -3 * FX_ONE), FX_ONE, grey()));
    let ray = Ray::new(Vec3::new(0, 0, 0), Vec3::new(0, 0, -FX_ONE));
    let rec = world.hit(&ray, Interval::new(66, FX_INF)).expect("must hit");
    assert_eq!(rec.t, 2 * FX_ONE);
    // the same result as querying each sphere alone and taking the minimum
    let alone_near = Sphere::new(Vec3::new(0, 0, -3 * FX_ONE), FX_ONE, grey());
    let near_rec = alone_near.hit(&ray, Interval::new(66, FX_INF)).expect("near");
    assert_eq!(rec, near_rec);
}

#[test]
fn list_order_does_not_matter() {
    let ray = Ray::new(Vec3::new(0, 0, 0), Vec3::new(0, 0, -FX_ONE));
    let mut a = HittableList::new();
    a.add(Sphere::new(Vec3::new(0, 0, -6 * FX_ONE), FX_ONE, grey()));
    a.add(Sphere::new(Vec3::new(0, 0, -3 * FX_ONE), FX_ONE, grey()));
    let mut b = HittableList::new();
    b.add(Sphere::new(Vec3::new(0, 0, -3 * FX_ONE), FX_ONE, grey()));
    b.add(Sphere::new(Vec3::new(0, 0, -6 * FX_ONE), FX_ONE, grey()));
    assert_eq!(
        a.hit(&ray, Interval::new(66, FX_INF)),
        b.hit(&ray, Interval::new(66, FX_INF))
    );
}

#[test]
fn empty_list_reports_nothing() {
    let world = HittableList::new();
    let ray = Ray::new(Vec3::new(0, 0, 0), Vec3::new(0, 0, -FX_ONE));
    assert!(world.hit(&ray, Interval::new(66, FX_INF)).is_none());
    let mut filled = HittableList::new();
    filled.add(Sphere::new(Vec3::new(0, 0, -3 * FX_ONE), FX_ONE, grey()));
    filled.clear();
    assert!(filled.hit(&ray, Interval::new(66, FX_INF)).is_none());
}

#[test]
fn scalar_division_helpers() {
    let v = Vec3::new(10 * FX_ONE, -10 * FX_ONE, 5 * FX_ONE);
    assert_eq!(v.div_by_count(5), Vec3::new(2 * FX_ONE, -2 * FX_ONE, FX_ONE));
    assert_eq!(v.div_fx(2 * FX_ONE), Vec3::new(5 * FX_ONE, -5 * FX_ONE, 5 * FX_ONE / 2));
    assert!(v.bounded_by(10 * FX_ONE));
    assert!(!v.bounded_by(10 * FX_ONE - 1));
}

#[test]
fn random_vectors_respect_their_ranges() {
    let mut rng = ReplayRandom::new(vec![0, FX_ONE / 2, FX_ONE - 1, 12345]);
    for _ in 0..16 {
        let v = raytracer::vec3::Vec3::random(&mut rng);
        assert!(0 <= v.x && v.x < FX_ONE);
        assert!(0 <= v.y && v.y < FX_ONE);
        assert!(0 <= v.z && v.z < FX_ONE);
        let w = Vec3::random_range(&mut rng, -FX_ONE, FX_ONE);
        assert!(-FX_ONE <= w.x && w.x <= FX_ONE);
        assert!(-FX_ONE <= w.y && w.y <= FX_ONE);
        assert!(-FX_ONE <= w.z && w.z <= FX_ONE);
    }
}

#[test]
fn hemisphere_samples_never_oppose_the_normal() {
    let normal = Vec3::new(0, FX_ONE, 0);
    let mut rng = ReplayRandom::new(vec![9000, 61234, 4321, 50000, 777]);
    for _ in 0..32 {
        let v = raytracer::vec3::random_vector_on_hemisphere(&mut rng, normal);
        assert!(v.dot(normal) >= 0);
    }
}

#[test]
fn disk_samples_stay_inside_the_disk() {
    let mut rng = ReplayRandom::new(vec![9000, 61234, 4321, 50000, 777]);
    for _ in 0..32 {
        let p = raytracer::vec3::random_in_unit_disk(&mut rng);
        assert_eq!(p.z, 0);
        assert!(p.length_squared() < FX_ONE);
    }
}

#[test]
fn range_draws_stay_below_the_upper_end() {
    // the largest possible draw still lands strictly below the upper end
    let mut rng = ReplayRandom::new(vec![FX_ONE - 1]);
    for _ in 0..8 {
        let v = raytracer::random_fx_in_range(&mut rng, -FX_ONE, FX_ONE);
        assert!(-FX_ONE <= v && v < FX_ONE);
    }
}
