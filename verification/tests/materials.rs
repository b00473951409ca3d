use raytracer::fixed::{FX_INF, FX_ONE};
use raytracer::hittable::sphere::Sphere;
use raytracer::hittable::{HitRecord, Hittable};
use raytracer::interval::Interval;
use raytracer::material::dielectric::Dielectric;
use raytracer::material::lambertian::Lambertian;
use raytracer::material::metal::Metal;
use raytracer::material::Material;
use raytracer::ray::Ray;
use raytracer::rng::{RandomSource, ReplayRandom, ThreadRandom};
use raytracer::vec3::Vec3;

fn head_on_record(mat: Material) -> (Ray, HitRecord) {
    let ray = Ray::new(Vec3::new(0, 0, 0), Vec3::new(0, 0, -FX_ONE));
    let rec = HitRecord {
        p: Vec3::new(0, 0, -FX_ONE),
        normal: Vec3::new(0, 0, FX_ONE),
        mat,
        t: FX_ONE,
        front_face: true,
    };
    (ray, rec)
}

#[test]
fn replay_source_cycles_and_clamps() {
    let mut rng = ReplayRandom::new(vec![7, 99999, -3]);
    assert_eq!(rng.next_unit(), 7);
    assert_eq!(rng.next_unit(), FX_ONE / 2);
    assert_eq!(rng.next_unit(), FX_ONE / 2);
    assert_eq!(rng.next_unit(), 7);
    let mut empty = ReplayRandom::new(vec![]);
    assert_eq!(empty.next_unit(), FX_ONE / 2);
}

#[test]
fn thread_source_stays_in_range() {
    let mut rng = ThreadRandom::new();
    for _ in 0..256 {
        let v = rng.next_unit();
        assert!(0 <= v && v < FX_ONE);
    }
}

#[test]
fn lambertian_attenuates_by_albedo_exactly() {
    let albedo = Vec3::new(FX_ONE / 2, FX_ONE / 4, FX_ONE / 8);
    let mat = Material::Lambertian(Lambertian::new(albedo));
    let (ray, rec) = head_on_record(mat);
    let mut rng = ThreadRandom::new();
    for _ in 0..32 {
        let (attenuation, scattered) = mat.scatter(&ray, &rec, &mut rng).expect("always scatters");
        assert_eq!(attenuation, albedo);
        assert_eq!(scattered.origin, rec.p);
    }
}

#[test]
fn polished_metal_reflects_deterministically() {
    let albedo = Vec3::new(FX_ONE / 2, FX_ONE / 2, FX_ONE / 2);
    let mat = Material::Metal(Metal::new(albedo, 0));
    let (ray, rec) = head_on_record(mat);
    let mut rng = ThreadRandom::new();
    for _ in 0..32 {
        let (attenuation, scattered) = mat.scatter(&ray, &rec, &mut rng).expect("reflects");
        assert_eq!(attenuation, albedo);
        assert_eq!(scattered.origin, rec.p);
        // the exact mirror image, independent of the random draws
        assert_eq!(scattered.direction, Vec3::new(0, 0, FX_ONE));
    }
}

#[test]
fn metal_absorbs_rays_reflected_inward() {
    let albedo = Vec3::new(FX_ONE / 2, FX_ONE / 2, FX_ONE / 2);
    let mat = Material::Metal(Metal::new(albedo, 0));
    let ray = Ray::new(Vec3::new(0, 0, 0), Vec3::new(0, 0, FX_ONE));
    let rec = HitRecord {
        p: Vec3::new(0, 0, FX_ONE),
        normal: Vec3::new(0, 0, FX_ONE),
        mat,
        t: FX_ONE,
        front_face: false,
    };
    let mut rng = ThreadRandom::new();
    assert!(mat.scatter(&ray, &rec, &mut rng).is_none());
}

#[test]
fn metal_roughness_is_clamped() {
    let albedo = Vec3::new(FX_ONE, FX_ONE, FX_ONE);
    assert_eq!(Metal::new(albedo, -5).fuzz, 0);
    assert_eq!(Metal::new(albedo, 3 * FX_ONE).fuzz, FX_ONE);
    assert_eq!(Metal::new(albedo, 1234).fuzz, 1234);
}

#[test]
fn unity_dielectric_passes_head_on_rays_undeviated() {
    let mat = Material::Dielectric(Dielectric::new(FX_ONE));
    let (ray, rec) = head_on_record(mat);
    let mut rng = ThreadRandom::new();
    for _ in 0..32 {
        let (attenuation, scattered) = mat.scatter(&ray, &rec, &mut rng).expect("always scatters");
        // full transmission: white attenuation
        assert_eq!(attenuation, Vec3::new(FX_ONE, FX_ONE, FX_ONE));
        assert_eq!(scattered.origin, rec.p);
        // head on, the reflectance is zero, so the ray continues straight
        assert_eq!(scattered.direction, Vec3::new(0, 0, -FX_ONE));
    }
}

#[test]
fn dielectric_totally_reflects_at_grazing_exit() {
    // leaving a dense medium at grazing incidence: the sine term saturates
    // and refraction is impossible, whatever the draw
    let mat = Material::Dielectric(Dielectric::new(3 * FX_ONE / 2));
    let ray = Ray::new(Vec3::new(0, 0, 0), Vec3::new(FX_ONE, 0, 0));
    let rec = HitRecord {
        p: Vec3::new(FX_ONE, 0, 0),
        normal: Vec3::new(0, 0, FX_ONE),
        mat,
        t: FX_ONE,
        front_face: false,
    };
    let mut rng = ThreadRandom::new();
    for _ in 0..32 {
        let (attenuation, scattered) = mat.scatter(&ray, &rec, &mut rng).expect("reflects");
        assert_eq!(attenuation, Vec3::new(FX_ONE, FX_ONE, FX_ONE));
        assert_eq!(scattered.direction, Vec3::new(FX_ONE, 0, 0));
    }
}

#[test]
fn hit_record_carries_sphere_material() {
    let albedo = Vec3::new(FX_ONE / 4, FX_ONE / 2, FX_ONE);
    let mat = Material::Lambertian(Lambertian::new(albedo));
    let s = Sphere::new(Vec3::new(0, 0, -2 * FX_ONE), FX_ONE, mat);
    let ray = Ray::new(Vec3::new(0, 0, 0), Vec3::new(0, 0, -FX_ONE));
    let rec = s.hit(&ray, Interval::new(66, FX_INF)).expect("must hit");
    assert_eq!(rec.mat, mat);
}

#[test]
fn lambertian_direction_is_normal_plus_unit_draw() {
    // centred draws reject every rejection-sampling candidate, so the unit
    // draw falls back to the fixed axis and the scatter is predictable
    let albedo = Vec3::new(FX_ONE / 2, FX_ONE / 2, FX_ONE / 2);
    let mat = Material::Lambertian(Lambertian::new(albedo));
    let (ray, rec) = head_on_record(mat);
    let mut rng = ReplayRandom::new(vec![FX_ONE / 2]);
    let (_, scattered) = mat.scatter(&ray, &rec, &mut rng).expect("always scatters");
    assert_eq!(scattered.direction, Vec3::new(FX_ONE, 0, FX_ONE));
}

#[test]
fn replay_cursor_wraps_exactly() {
    let mut rng = ReplayRandom::new(vec![11, 22]);
    assert_eq!(rng.next_replay(), 11);
    assert_eq!(rng.next_replay(), 22);
    assert_eq!(rng.next_replay(), 11);
    assert_eq!(rng.index, 1);
}
