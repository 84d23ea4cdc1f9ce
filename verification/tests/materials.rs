//! The three scattering models on concrete hits: attenuations, scatter
//! directions, the total-internal-reflection fallback, and the guards
//! against degenerate directions.

use raytracer::fixed::SCALE;
use raytracer::hittable::HitRecord;
use raytracer::material::dielectric::Dielectric;
use raytracer::material::lambertian::Lambertian;
use raytracer::material::metal::Metal;
use raytracer::material::Material;
use raytracer::ray::Ray;
use raytracer::rng::Rng;
use raytracer::vec3::Vec3;

const S: i64 = SCALE;

/// A head-on hit of the plane-facing side of a sphere: the ray runs
/// along the negative third axis and strikes a surface whose outward
/// normal faces it.
fn head_on() -> (Ray, HitRecord) {
    let ray = Ray::new(Vec3::new(0, 0, 0), Vec3::new(0, 0, -S));
    let record = HitRecord::new(
        Vec3::new(0, 0, -S / 2),
        Vec3::new(0, 0, S),
        S / 2,
        &ray,
        Material::Lambertian(Lambertian::new(Vec3::new(S / 2, S / 2, S / 2))),
    );
    (ray, record)
}

#[test]
fn the_record_orients_the_normal_against_the_ray() {
    let (_, record) = head_on();
    assert!(record.front_face());
    assert_eq!(*record.normal(), Vec3::new(0, 0, S));

    let ray = Ray::new(Vec3::new(0, 0, 0), Vec3::new(0, 0, S));
    let record = HitRecord::new(
        Vec3::new(0, 0, S / 2),
        Vec3::new(0, 0, S),
        S / 2,
        &ray,
        Material::Lambertian(Lambertian::new(Vec3::new(S, S, S))),
    );
    assert!(!record.front_face());
    assert_eq!(*record.normal(), Vec3::new(0, 0, -S));
    assert_eq!(record.time(), S / 2);
}

#[test]
fn lambertian_always_scatters_with_its_albedo() {
    let (ray, record) = head_on();
    let albedo = Vec3::new(S / 2, S / 4, S / 8);
    let material = Lambertian::new(albedo);
    let mut rng = Rng::new(3);
    for _ in 0..20 {
        let (scattered, attenuation) = material.scatter(&ray, &record, &mut rng).unwrap();
        assert_eq!(attenuation, albedo);
        assert_eq!(*scattered.origin(), *record.point());
        assert!(!scattered.direction().near_zero());
    }
}

#[test]
fn fuzz_is_clamped_into_the_unit_range() {
    assert_eq!(Metal::new(Vec3::new(S, S, S), -5).fuzz, 0);
    assert_eq!(Metal::new(Vec3::new(S, S, S), 2 * S).fuzz, S);
    assert_eq!(Metal::new(Vec3::new(S, S, S), S / 4).fuzz, S / 4);
}

#[test]
fn polished_metal_reflects_exactly() {
    let (ray, record) = head_on();
    let albedo = Vec3::new(S, S / 2, S / 4);
    let material = Metal::new(albedo, 0);
    let mut rng = Rng::new(9);
    // With no fuzz the reflection of a head-on ray is exact, whatever
    // the generator draws.
    let (scattered, attenuation) = material.scatter(&ray, &record, &mut rng).unwrap();
    assert_eq!(attenuation, albedo);
    assert_eq!(*scattered.origin(), *record.point());
    assert_eq!(*scattered.direction(), Vec3::new(0, 0, S));
}

#[test]
fn fuzzed_metal_scatters_away_from_the_surface_or_absorbs() {
    let (ray, record) = head_on();
    let material = Metal::new(Vec3::new(S, S, S), 2 * S);
    let mut rng = Rng::new(11);
    for _ in 0..20 {
        if let Some((scattered, _)) = material.scatter(&ray, &record, &mut rng) {
            assert!(scattered.direction().dot(record.normal()) > 0);
            assert!(!scattered.direction().near_zero());
        }
    }
}

#[test]
fn matched_dielectric_passes_straight_through() {
    let (ray, record) = head_on();
    let material = Dielectric::new(S);
    let (scattered, attenuation) = material.scatter(&ray, &record).unwrap();
    assert_eq!(attenuation, Vec3::new(S, S, S));
    assert_eq!(*scattered.origin(), *record.point());
    assert_eq!(*scattered.direction(), Vec3::new(0, 0, -S));
}

#[test]
fn a_grazing_exit_reflects_internally() {
    // Leaving a dense medium at forty-five degrees with a high index:
    // the sine of the refracted angle would pass one, so the ray must
    // reflect instead of refracting.
    let ray = Ray::new(Vec3::new(0, 0, 0), Vec3::new(S, 0, -S));
    let record = HitRecord::new(
        Vec3::new(0, 0, -S),
        Vec3::new(0, 0, -S),
        S,
        &ray,
        Material::Dielectric(Dielectric::new(8 * S)),
    );
    assert!(!record.front_face());
    let material = Dielectric::new(8 * S);
    let (scattered, _) = material.scatter(&ray, &record).unwrap();
    // The exact reflection of the normalized incoming direction.
    assert_eq!(*scattered.direction(), Vec3::new(46341, 0, 46342));
}

#[test]
fn dispatch_matches_the_variant() {
    let (ray, record) = head_on();
    let mut rng = Rng::new(5);
    let lambertian = Material::Lambertian(Lambertian::new(Vec3::new(S / 2, S / 2, S / 2)));
    assert!(lambertian.scatter(&ray, &record, &mut rng).is_some());
    let dielectric = Material::Dielectric(Dielectric::new(3 * S / 2));
    assert!(dielectric.scatter(&ray, &record, &mut rng).is_some());
    let metal = Material::Metal(Metal::new(Vec3::new(S, S, S), 0));
    let (scattered, _) = metal.scatter(&ray, &record, &mut rng).unwrap();
    assert_eq!(*scattered.direction(), Vec3::new(0, 0, S));
}
