//! The camera and the integrator end to end: viewport derivation, the
//! background gradient of an escaping ray, the single-sphere scene, and
//! seeded reproducibility of a full render.

use raytracer::camera::{background_color, Camera, T_FAR, T_MIN_EPS};
use raytracer::fixed::SCALE;
use raytracer::hittable::list::List;
use raytracer::hittable::sphere::Sphere;
use raytracer::interval::Interval;
use raytracer::material::dielectric::Dielectric;
use raytracer::material::lambertian::Lambertian;
use raytracer::material::metal::Metal;
use raytracer::material::Material;
use raytracer::rng::{random_seed, Rng};
use raytracer::vec3::Vec3;

const S: i64 = SCALE;

/// A camera at the origin looking down the negative third axis with a
/// ninety-degree field of view and a square image.
fn straight_camera(width: u32, samples: u8, depth: u8) -> Camera {
    Camera::new(
        S,
        width,
        samples,
        depth,
        S,
        Vec3::new(0, 0, 0),
        Vec3::new(0, 0, -S),
        Vec3::new(0, S, 0),
    )
}

/// One half-unit sphere one unit ahead of the camera, diffuse gray.
fn single_sphere_scene() -> List {
    List::new(Sphere::new(
        Vec3::new(0, 0, -S),
        S / 2,
        Material::Lambertian(Lambertian::new(Vec3::new(S / 2, S / 2, S / 2))),
    ))
}

#[test]
fn the_viewport_is_derived_as_stated() {
    let cam = straight_camera(101, 1, 1);
    assert_eq!(cam.image_width, 101);
    assert_eq!(cam.image_height, 101);
    assert_eq!(cam.center, Vec3::new(0, 0, 0));
    assert_eq!(cam.w, Vec3::new(0, 0, S));
    assert_eq!(cam.u, Vec3::new(S, 0, 0));
    assert_eq!(cam.v, Vec3::new(0, S, 0));
    // A two-unit viewport across one hundred and one pixels; the
    // downward delta floors one unit lower.
    assert_eq!(cam.pixel_delta_u, Vec3::new(2 * S / 101, 0, 0));
    assert_eq!(cam.pixel_delta_v, Vec3::new(0, -1298, 0));
}

#[test]
fn the_default_camera_is_square() {
    let cam = Camera::default();
    assert_eq!(cam.image_width, 100);
    assert_eq!(cam.image_height, 100);
    assert_eq!(cam.samples_per_pixel, 10);
    assert_eq!(cam.max_depth, 10);
}

#[test]
fn the_center_ray_registers_a_hit_and_the_corner_ray_the_background() {
    let cam = straight_camera(101, 1, 1);
    let world = single_sphere_scene();
    let mut rng = Rng::new(2024);

    // The center pixel's ray strikes the sphere; with a recursion
    // budget of one, the gathered color is black — not the background.
    let center_ray = cam.get_ray(50, 50, &mut rng);
    assert!(world
        .hit(&center_ray, Interval::new(T_MIN_EPS, T_FAR))
        .is_some());
    let center_color = Camera::ray_color(&center_ray, &world, 1, &mut rng);
    assert_eq!(center_color, Vec3::new(0, 0, 0));
    assert_ne!(center_color, background_color(&center_ray));

    // The corner pixel's ray misses and must equal the exact gradient:
    // a blend of white and sky blue by half the normalized height plus
    // one half.
    let corner_ray = cam.get_ray(0, 0, &mut rng);
    assert!(world
        .hit(&corner_ray, Interval::new(T_MIN_EPS, T_FAR))
        .is_none());
    let corner_color = Camera::ray_color(&corner_ray, &world, 1, &mut rng);
    assert_eq!(corner_color, background_color(&corner_ray));

    let unit = corner_ray.direction().unit_vector();
    let a = (unit.y() + S) / 2;
    let white = Vec3::new(S, S, S);
    let blue = Vec3::new(S / 2, 45875, S);
    let expected = white.scale(S - a).add(&blue.scale(a));
    assert_eq!(corner_color, expected);
}

#[test]
fn a_ray_that_misses_everything_is_the_background_gradient() {
    let world = single_sphere_scene();
    let cam = straight_camera(11, 1, 3);
    let mut rng = Rng::new(7);
    let ray = cam.get_ray(0, 5, &mut rng);
    if world.hit(&ray, Interval::new(T_MIN_EPS, T_FAR)).is_none() {
        let color = Camera::ray_color(&ray, &world, 3, &mut rng);
        assert_eq!(color, background_color(&ray));
    }
}

#[test]
fn rendering_with_one_seed_is_reproducible_bit_for_bit() {
    let cam = straight_camera(8, 2, 3);
    let mut world = single_sphere_scene();
    world.add(Sphere::new(
        Vec3::new(S, 0, -2 * S),
        S / 2,
        Material::Metal(Metal::new(Vec3::new(S, 3 * S / 4, S / 2), S / 10)),
    ));
    world.add(Sphere::new(
        Vec3::new(-S, 0, -2 * S),
        S / 2,
        Material::Dielectric(Dielectric::new(3 * S / 2)),
    ));

    let mut rng_one = Rng::new(123456789);
    let first = cam.render(&world, &mut rng_one);
    let mut rng_two = Rng::new(123456789);
    let second = cam.render(&world, &mut rng_two);
    assert_eq!(first.len(), 8 * 8 * 3);
    assert_eq!(first, second);

    // A different seed is free to differ; the shape is the same.
    let mut rng_three = Rng::new(987654321);
    let third = cam.render(&world, &mut rng_three);
    assert_eq!(third.len(), first.len());
}

#[test]
fn fresh_seeds_drive_the_generator() {
    let seed = random_seed();
    let mut rng = Rng::new(seed);
    let draw = rng.next_below(1000);
    assert!(draw < 1000);
}
