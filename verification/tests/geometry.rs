//! Ray-sphere intersection and nearest-hit resolution over a list, on
//! concrete scenes: secant, tangent and missing rays, farther-root
//! selection, and order independence.

use raytracer::camera::T_FAR;
use raytracer::fixed::SCALE;
use raytracer::hittable::list::List;
use raytracer::hittable::sphere::Sphere;
use raytracer::interval::Interval;
use raytracer::material::lambertian::Lambertian;
use raytracer::material::Material;
use raytracer::ray::Ray;
use raytracer::vec3::Vec3;

const S: i64 = SCALE;

fn gray() -> Material {
    Material::Lambertian(Lambertian::new(Vec3::new(S / 2, S / 2, S / 2)))
}

fn query() -> Interval {
    Interval::new(66, T_FAR)
}

#[test]
fn a_secant_ray_hits_at_the_nearer_root() {
    let sphere = Sphere::new(Vec3::new(0, 0, -S), S / 2, gray());
    let ray = Ray::new(Vec3::new(0, 0, 0), Vec3::new(0, 0, -S));
    let rec = sphere.hit(&ray, query()).unwrap();
    assert_eq!(rec.time(), S / 2);
    assert_eq!(*rec.point(), Vec3::new(0, 0, -S / 2));
    assert_eq!(*rec.normal(), Vec3::new(0, 0, S));
    assert!(rec.front_face());
}

#[test]
fn a_tangent_ray_grazes_at_one_root() {
    let sphere = Sphere::new(Vec3::new(0, S / 2, -S), S / 2, gray());
    let ray = Ray::new(Vec3::new(0, 0, 0), Vec3::new(0, 0, -S));
    let rec = sphere.hit(&ray, query()).unwrap();
    assert_eq!(rec.time(), S);
}

#[test]
fn a_missing_ray_does_not_hit() {
    let sphere = Sphere::new(Vec3::new(0, 2 * S, -S), S / 2, gray());
    let ray = Ray::new(Vec3::new(0, 0, 0), Vec3::new(0, 0, -S));
    assert!(sphere.hit(&ray, query()).is_none());
}

#[test]
fn from_inside_the_farther_root_is_taken() {
    // The ray starts at the center: the nearer root is behind the
    // origin, so the hit is the exit point, with the normal flipped
    // inward.
    let sphere = Sphere::new(Vec3::new(0, 0, 0), S, gray());
    let ray = Ray::new(Vec3::new(0, 0, 0), Vec3::new(0, 0, -S));
    let rec = sphere.hit(&ray, query()).unwrap();
    assert_eq!(rec.time(), S);
    assert_eq!(*rec.point(), Vec3::new(0, 0, -S));
    assert_eq!(*rec.normal(), Vec3::new(0, 0, S));
    assert!(!rec.front_face());
}

#[test]
fn an_interval_excluding_both_roots_misses() {
    let sphere = Sphere::new(Vec3::new(0, 0, -S), S / 2, gray());
    let ray = Ray::new(Vec3::new(0, 0, 0), Vec3::new(0, 0, -S));
    // Both roots (at one half and three halves) lie beyond the range.
    assert!(sphere.hit(&ray, Interval::new(66, S / 4)).is_none());
    // A range between the roots takes the farther one.
    let rec = sphere.hit(&ray, Interval::new(S, T_FAR)).unwrap();
    assert_eq!(rec.time(), 3 * S / 2);
}

#[test]
fn a_zero_radius_sphere_is_never_hit() {
    let sphere = Sphere::new(Vec3::new(0, 0, -S), -5, gray());
    let ray = Ray::new(Vec3::new(0, 0, 0), Vec3::new(0, 0, -S));
    assert!(sphere.hit(&ray, query()).is_none());
}

#[test]
fn the_list_resolves_the_nearest_hit_in_any_order() {
    let near = Sphere::new(Vec3::new(0, 0, -S), S / 2, gray());
    let far = Sphere::new(
        Vec3::new(0, 0, -2 * S),
        S / 2,
        Material::Lambertian(Lambertian::new(Vec3::new(S, 0, 0))),
    );
    let ray = Ray::new(Vec3::new(0, 0, 0), Vec3::new(0, 0, -S));

    let mut world_a = List::new(near);
    world_a.add(far);
    let mut world_b = List::new(far);
    world_b.add(near);

    let rec_a = world_a.hit(&ray, query()).unwrap();
    let rec_b = world_b.hit(&ray, query()).unwrap();
    assert_eq!(rec_a, rec_b);
    assert_eq!(rec_a.time(), S / 2);
    assert_eq!(*rec_a.material(), gray());
}

#[test]
fn the_list_narrows_but_reports_the_same_as_the_best_single_test() {
    let a = Sphere::new(Vec3::new(0, 0, -3 * S), S / 2, gray());
    let b = Sphere::new(Vec3::new(0, 0, -2 * S), S / 2, gray());
    let ray = Ray::new(Vec3::new(0, 0, 0), Vec3::new(0, 0, -S));
    let mut world = List::new(a);
    world.add(b);
    let from_list = world.hit(&ray, query()).unwrap();
    let alone = b.hit(&ray, query()).unwrap();
    assert_eq!(from_list, alone);
}

#[test]
fn a_list_built_from_a_vector_keeps_the_order() {
    let near = gray_sphere();
    let far = Sphere::new(Vec3::new(0, 0, -2 * S), S / 2, gray());
    let from_vec = List::from_vec(vec![far, near]);
    let mut grown = List::new(far);
    grown.add(near);
    let ray = Ray::new(Vec3::new(0, 0, 0), Vec3::new(0, 0, -S));
    assert_eq!(from_vec.hit(&ray, query()), grown.hit(&ray, query()));
}

#[test]
fn an_empty_list_reports_no_hit() {
    let mut world = List::new(gray_sphere());
    world.clear();
    let ray = Ray::new(Vec3::new(0, 0, 0), Vec3::new(0, 0, -S));
    assert!(world.hit(&ray, query()).is_none());
}

fn gray_sphere() -> Sphere {
    Sphere::new(Vec3::new(0, 0, -S), S / 2, gray())
}
