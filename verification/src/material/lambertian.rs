//! The diffuse material: scatter about the normal, cosine-weighted by
//! the random-unit-vector construction.

use vstd::prelude::*;

verus! {

use crate::color::Color;
use crate::hittable::HitRecord;
use crate::hittable::wf_record_geom;
use crate::material::color_ok;
use crate::material::scatter_dir_ok;
use crate::ray::Ray;
use crate::rng::Rng;
use crate::vec3::SAMPLE_ATTEMPTS;
use crate::vec3::V3;
use crate::vec3::Vec3;
use crate::vec3::add_v;
use crate::vec3::near_zero_v;
use crate::vec3::sphere_sample_v;

/// The scattered direction of a diffuse hit: the normal plus a sphere
/// sample, with the normal alone standing in when the two nearly
/// cancel; paired with the generator state after the sample.
pub open spec fn lambertian_dir_v(normal: V3, s: int) -> (V3, int) {
    let (u, s1) = sphere_sample_v(s, SAMPLE_ATTEMPTS as nat);
    let d = add_v(normal, u);
    (
        if near_zero_v(d) {
            normal
        } else {
            d
        },
        s1,
    )
}

/// Ideal diffuse reflection with a base color.
#[derive(Clone, Copy, Debug, PartialEq, Eq, Structural)]
pub struct Lambertian {
    /// Base reflected color.
    pub albedo: Color,
}

impl Lambertian {
    /// A diffuse material with the given base color.
    pub fn new(albedo: Color) -> (r: Lambertian)
        ensures
            r.albedo == albedo,
    {
        Lambertian { albedo }
    }

    /// Always scatters: the direction is the normal plus a random unit
    /// vector, with the normal alone standing in when the two nearly
    /// cancel. The attenuation is the albedo. The direction is pinned
    /// exactly by [`lambertian_dir_v`]; no bound on its inner product
    /// with the normal is promised — the floored product of a
    /// near-antiparallel sample just above the degeneracy threshold can
    /// dip slightly below zero.
    pub fn scatter(&self, _ray: &Ray, record: &HitRecord, rng: &mut Rng) -> (r: Option<
        (Ray, Color),
    >)
        requires
            color_ok(self.albedo@),
            wf_record_geom(*record),
        ensures
            r matches Some((sray, att)) ==> sray.origin == record.point && scatter_dir_ok(
                sray.direction@,
            ) && att == self.albedo,
            r.is_some(),
            ({
                let (d, s1) = lambertian_dir_v(record.normal@, old(rng).state as int);
                r matches Some((sray, att)) && sray.direction@ == d && final(rng).state as int
                    == s1
            }),
    {
        let u = Vec3::random_unit_vector(rng);
        let mut scatter_direction = record.normal().add(&u);
        if scatter_direction.near_zero() {
            scatter_direction = *record.normal();
        }
        Some((Ray::new(*record.point(), scatter_direction), self.albedo))
    }
}

} // verus!
