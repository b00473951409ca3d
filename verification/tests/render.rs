use raytracer::camera::{background, Camera};
use raytracer::colour::{encode_colour, linear_to_gamma, Rgb};
use raytracer::fixed::FX_ONE;
use raytracer::hittable::HittableList;
use raytracer::hittable::sphere::Sphere;
use raytracer::material::lambertian::Lambertian;
use raytracer::material::Material;
use raytracer::ray::Ray;
use raytracer::rng::ReplayRandom;
use raytracer::vec3::Vec3;
use raytracer::{degrees_to_radians, PI_FX};

fn centred_rng() -> ReplayRandom {
    ReplayRandom::new(vec![FX_ONE / 2])
}

fn small_camera(width: usize, samples: usize, depth: u32) -> Camera {
    let mut cam = Camera::new();
    cam.image_width = width;
    cam.samples_per_pixel = samples;
    cam.max_depth = depth;
    cam
}

#[test]
fn degrees_convert_through_pi() {
    assert_eq!(degrees_to_radians(180 * FX_ONE), PI_FX);
    assert_eq!(degrees_to_radians(0), 0);
    assert_eq!(degrees_to_radians(90 * FX_ONE), PI_FX / 2);
}

#[test]
fn gamma_is_square_root() {
    assert_eq!(linear_to_gamma(FX_ONE), FX_ONE);
    assert_eq!(linear_to_gamma(FX_ONE / 4), FX_ONE / 2);
    assert_eq!(linear_to_gamma(0), 0);
    assert_eq!(linear_to_gamma(-FX_ONE), 0);
}

#[test]
fn encoding_pure_red_is_deterministic() {
    let red = encode_colour(Vec3::new(FX_ONE, 0, 0));
    assert_eq!(red, Rgb { r: 255, g: 0, b: 0 });
    // runs give the same bytes every time
    assert_eq!(encode_colour(Vec3::new(FX_ONE, 0, 0)), red);
}

#[test]
fn encoding_clamps_and_scales_uniformly() {
    assert_eq!(encode_colour(Vec3::new(FX_ONE / 4, FX_ONE / 4, FX_ONE / 4)), Rgb {
        r: 128,
        g: 128,
        b: 128,
    });
    // overflow clamps to the top byte on every channel alike
    assert_eq!(encode_colour(Vec3::new(4 * FX_ONE, 4 * FX_ONE, 4 * FX_ONE)), Rgb {
        r: 255,
        g: 255,
        b: 255,
    });
    assert_eq!(encode_colour(Vec3::new(-FX_ONE, 0, 0)), Rgb { r: 0, g: 0, b: 0 });
}

#[test]
fn zero_depth_shading_is_black() {
    let mut world = HittableList::new();
    let mat = Material::Lambertian(Lambertian::new(Vec3::new(FX_ONE / 2, FX_ONE / 2, FX_ONE / 2)));
    world.add(Sphere::new(Vec3::new(0, 0, -2 * FX_ONE), FX_ONE, mat));
    let ray = Ray::new(Vec3::new(0, 0, 0), Vec3::new(0, 0, -FX_ONE));
    let mut rng = centred_rng();
    let c = Camera::ray_colour(&ray, 0, &world, &mut rng);
    assert_eq!(c, Vec3::new(0, 0, 0));
    let up = Ray::new(Vec3::new(0, 0, 0), Vec3::new(0, FX_ONE, 0));
    assert_eq!(Camera::ray_colour(&up, 0, &world, &mut rng), Vec3::new(0, 0, 0));
}

#[test]
fn missed_rays_shade_as_gradient() {
    let world = HittableList::new();
    let mut rng = centred_rng();
    let up = Ray::new(Vec3::new(0, 0, 0), Vec3::new(0, FX_ONE, 0));
    let c = Camera::ray_colour(&up, 5, &world, &mut rng);
    // straight up: fully sky blue
    assert_eq!(c, background(&up));
    assert_eq!(c, Vec3::new(32768, 45875, FX_ONE));
    let down = Ray::new(Vec3::new(0, 0, 0), Vec3::new(0, -FX_ONE, 0));
    // straight down: fully white
    assert_eq!(Camera::ray_colour(&down, 5, &world, &mut rng), Vec3::new(FX_ONE, FX_ONE, FX_ONE));
}

#[test]
fn empty_scene_reproduces_background_gradient() {
    let world = HittableList::new();
    let mut cam = small_camera(4, 1, 3);
    let pixels = cam.render(&world, &mut centred_rng());
    assert_eq!(pixels.len(), 16);
    for j in 0..4 {
        for i in 0..4 {
            // with centred draws each pixel sees exactly its centre ray
            let ray = cam.get_ray(i, j, &mut centred_rng());
            let expected = encode_colour(background(&ray));
            assert_eq!(pixels[j * 4 + i], expected);
        }
    }
    // rows darken downward: the top row is bluer than the bottom row
    assert!(pixels[0].r < pixels[12].r);
}

#[test]
fn gradient_independent_of_sample_count() {
    let world = HittableList::new();
    let mut one = small_camera(4, 1, 3);
    let mut many = small_camera(4, 5, 3);
    let first = one.render(&world, &mut centred_rng());
    let second = many.render(&world, &mut centred_rng());
    assert_eq!(first, second);
}

#[test]
fn sphere_in_front_darkens_centre_pixel() {
    let mut world = HittableList::new();
    let mat = Material::Lambertian(Lambertian::new(Vec3::new(FX_ONE / 2, FX_ONE / 2, FX_ONE / 2)));
    world.add(Sphere::new(Vec3::new(0, 0, -FX_ONE), FX_ONE, mat));
    let mut cam = small_camera(3, 1, 1);
    let pixels = cam.render(&world, &mut centred_rng());
    assert_eq!(pixels.len(), 9);
    // one bounce exhausts the budget, so the centre pixel is black
    assert_eq!(pixels[4], Rgb { r: 0, g: 0, b: 0 });
    // and differs from the background gradient seen at the image corner
    let corner_ray = cam.get_ray(0, 0, &mut centred_rng());
    let corner_background = encode_colour(background(&corner_ray));
    assert_ne!(pixels[4], corner_background);
}

#[test]
fn render_fills_row_major_buffer() {
    let world = HittableList::new();
    let mut cam = small_camera(5, 2, 2);
    cam.aspect_ratio = 2 * FX_ONE;
    let pixels = cam.render(&world, &mut centred_rng());
    // width 5 at aspect 2 gives height 2
    assert_eq!(pixels.len(), 10);
}

#[test]
fn default_camera_configuration_is_accepted() {
    let cam = Camera::new();
    assert!(cam.config_ok());
    assert_eq!(cam.image_width, 100);
    assert_eq!(cam.samples_per_pixel, 10);
    assert_eq!(cam.max_depth, 10);
    assert_eq!(cam.tan_half_vfov, FX_ONE);
    let mut bad = Camera::new();
    bad.image_width = 0;
    assert!(!bad.config_ok());
}
