//! Fixed-point arithmetic, vector algebra, ranges, colors and the
//! deterministic generator, on concrete values.

use raytracer::color::{linear_to_gamma, to_rgb, to_rgb_byte};
use raytracer::fixed::{clamp, fdiv, fmul, sqrt_fx, SCALE};
use raytracer::interval::Interval;
use raytracer::ray::Ray;
use raytracer::rng::Rng;
use raytracer::vec3::Vec3;

const S: i64 = SCALE;

#[test]
fn fixed_products_and_quotients_are_exact() {
    // 3.0 * 2.0 == 6.0 and 3.0 / 2.0 == 1.5.
    assert_eq!(fmul(3 * S, 2 * S), 6 * S);
    assert_eq!(fdiv(3 * S, 2 * S), 3 * S / 2);
    // Rounding is toward negative infinity on both sides of zero.
    assert_eq!(fmul(-3, 3), -1);
    assert_eq!(fmul(3, 3), 0);
    assert_eq!(fdiv(-1, S), -1);
}

#[test]
fn square_roots_are_exact_at_the_resolution() {
    assert_eq!(sqrt_fx(0), 0);
    // sqrt 4.0 == 2.0, sqrt 0.25 == 0.5, sqrt 1.0 == 1.0.
    assert_eq!(sqrt_fx(4 * S), 2 * S);
    assert_eq!(sqrt_fx(S / 4), S / 2);
    assert_eq!(sqrt_fx(S), S);
    // sqrt 2.0, truncated at the last bit.
    assert_eq!(sqrt_fx(2 * S), 92681);
}

#[test]
fn clamp_picks_the_nearest_end() {
    assert_eq!(clamp(5, 0, 10), 5);
    assert_eq!(clamp(-5, 0, 10), 0);
    assert_eq!(clamp(15, 0, 10), 10);
}

#[test]
fn vector_operations_are_componentwise() {
    let a = Vec3::new(S, 2 * S, 3 * S);
    let b = Vec3::new(4 * S, 5 * S, 6 * S);
    assert_eq!(a.add(&b), Vec3::new(5 * S, 7 * S, 9 * S));
    assert_eq!(b.sub(&a), Vec3::new(3 * S, 3 * S, 3 * S));
    assert_eq!(a.neg(), Vec3::new(-S, -2 * S, -3 * S));
    assert_eq!(a.mul(&b), Vec3::new(4 * S, 10 * S, 18 * S));
    assert_eq!(a.scale(2 * S), Vec3::new(2 * S, 4 * S, 6 * S));
    assert_eq!(a.div(2 * S), Vec3::new(S / 2, S, 3 * S / 2));
    assert_eq!(a.x(), S);
    assert_eq!(a.y(), 2 * S);
    assert_eq!(a.z(), 3 * S);
}

#[test]
fn dot_cross_and_length_match_the_formulas() {
    let a = Vec3::new(S, 2 * S, 3 * S);
    let b = Vec3::new(4 * S, 5 * S, 6 * S);
    // 1*4 + 2*5 + 3*6 == 32.
    assert_eq!(a.dot(&b), 32 * S);
    // (2*6-3*5, 3*4-1*6, 1*5-2*4) == (-3, 6, -3).
    assert_eq!(a.cross(&b), Vec3::new(-3 * S, 6 * S, -3 * S));
    let v = Vec3::new(3 * S, 4 * S, 0);
    assert_eq!(v.length_squared(), 25 * S);
    assert_eq!(v.length(), 5 * S);
    let u = v.unit_vector();
    assert_eq!(u, Vec3::new(3 * S / 5, 4 * S / 5, 0));
}

#[test]
fn near_zero_is_a_strict_component_test() {
    assert!(Vec3::new(255, -255, 0).near_zero());
    assert!(!Vec3::new(256, 0, 0).near_zero());
}

#[test]
fn reflection_flips_the_projection_on_the_axis() {
    // v == (1, -1, 0) reflected about the unit axis (0, 1, 0).
    let v = Vec3::new(S, -S, 0);
    let n = Vec3::new(0, S, 0);
    let r = v.reflect(&n);
    assert_eq!(r, Vec3::new(S, S, 0));
    // The projection on the axis is exactly flipped, and the squared
    // length survives: both vectors have squared length two.
    assert_eq!(r.dot(&n), -v.dot(&n));
    assert_eq!(r.length_squared(), v.length_squared());
}

#[test]
fn refraction_at_matched_indices_passes_straight_through() {
    let v = Vec3::new(0, 0, -S);
    let n = Vec3::new(0, 0, S);
    assert_eq!(v.refract(&n, S), Vec3::new(0, 0, -S));
}

#[test]
fn ranges_distinguish_closed_and_open() {
    let i = Interval::new(0, 10);
    assert_eq!(i.min(), 0);
    assert_eq!(i.max(), 10);
    assert_eq!(i.size(), 10);
    assert!(i.contains(0));
    assert!(i.contains(10));
    assert!(!i.surrounds(0));
    assert!(!i.surrounds(10));
    assert!(i.surrounds(5));
    assert!(!i.contains(11));
    let j = i.with_max(5).with_min(1);
    assert_eq!(j.min(), 1);
    assert_eq!(j.max(), 5);
    assert!(!Interval::empty().contains(0));
    assert!(!Interval::default().contains(0));
    assert!(Interval::universe().contains(i64::MIN));
}

#[test]
fn a_ray_evaluates_by_scaled_offset() {
    let r = Ray::new(Vec3::new(S, 0, 0), Vec3::new(0, 0, -S));
    assert_eq!(*r.origin(), Vec3::new(S, 0, 0));
    assert_eq!(*r.direction(), Vec3::new(0, 0, -S));
    assert_eq!(r.at(2 * S), Vec3::new(S, 0, -2 * S));
}

#[test]
fn gamma_mapping_is_a_square_root_with_a_floor_at_zero() {
    assert_eq!(linear_to_gamma(S), S);
    assert_eq!(linear_to_gamma(S / 4), S / 2);
    assert_eq!(linear_to_gamma(0), 0);
    assert_eq!(linear_to_gamma(-S), 0);
}

#[test]
fn display_bytes_clamp_and_scale() {
    assert_eq!(to_rgb_byte(S), 255);
    assert_eq!(to_rgb_byte(0), 0);
    assert_eq!(to_rgb_byte(-S), 0);
    // 0.25 maps to sqrt == 0.5, then into bytes: 128.
    assert_eq!(to_rgb_byte(S / 4), 128);
    assert_eq!(to_rgb(&Vec3::new(S, 0, S / 4)), (255, 0, 128));
}

#[test]
fn the_generator_is_the_stated_congruence() {
    let mut rng = Rng::new(42);
    assert_eq!(rng.next_u64(), 10481999410520546993);
    assert_eq!(rng.next_u64(), 4159066171780167020);
    let mut rng2 = Rng::new(42);
    assert_eq!(rng2.next_below(100), 10481999410520546993 % 100);
    let mut rng3 = Rng::new(7);
    for _ in 0..100 {
        let d = rng3.next_range(-5, 5);
        assert!((-5..5).contains(&d));
    }
}

#[test]
fn random_vectors_respect_their_stated_ranges() {
    let mut rng = Rng::new(1);
    for _ in 0..20 {
        let u = Vec3::random_unit_vector(&mut rng);
        assert!(!u.near_zero());
        let d = Vec3::random_in_unit_disk(&mut rng);
        assert_eq!(d.z(), 0);
        assert!(d.length_squared() < S);
        let h = Vec3::random_on_hemisphere(&Vec3::new(0, 0, S), &mut rng);
        assert!(!h.near_zero());
        assert!(h.dot(&Vec3::new(0, 0, S)) >= 0);
    }
}
