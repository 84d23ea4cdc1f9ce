//! Materials: how a surface scatters an incoming ray.
//!
//! The three kinds form a closed sum; [`Material::scatter`] dispatches on
//! it. A scatter either yields a new ray with a per-channel attenuation,
//! or absorbs the path.

use vstd::prelude::*;

pub mod dielectric;
pub mod lambertian;
pub mod metal;

verus! {

use crate::fixed::SCALE;
use crate::color::Color;
use crate::hittable::DIR_LIMIT;
use crate::hittable::HitRecord;
use crate::hittable::wf_record_geom;
use crate::fixed::fits_i64;
use crate::material::dielectric::Dielectric;
use crate::material::dielectric::dielectric_dir;
use crate::material::dielectric::dielectric_eta;
use crate::material::lambertian::lambertian_dir_v;
use crate::material::metal::metal_scatter_v;
use crate::material::lambertian::Lambertian;
use crate::material::metal::Metal;
use crate::ray::Ray;
use crate::rng::Rng;
use crate::vec3::V3;
use crate::vec3::bounded;
use crate::vec3::near_zero_v;
use crate::vec3::norm_sq_v;

/// Whether each channel of a color lies in the unit range: a valid
/// attenuation or albedo.
pub open spec fn color_ok(c: V3) -> bool {
    &&& 0 <= c.x <= SCALE as int
    &&& 0 <= c.y <= SCALE as int
    &&& 0 <= c.z <= SCALE as int
}

/// A direction a scatter event may hand back to the integrator.
pub open spec fn scatter_dir_ok(d: V3) -> bool {
    &&& bounded(d, DIR_LIMIT as int)
    &&& !near_zero_v(d)
}

/// The outcome of a scatter event, exactly: the scattered direction and
/// attenuation — or absorption — together with the generator state after
/// whatever was sampled. The scattered ray always starts at the hit
/// point. Refraction samples nothing; diffuse scattering always
/// succeeds; metal may absorb.
pub open spec fn scatter_spec(m: Material, dir: V3, normal: V3, front_face: bool, s: int) -> (
    Option<(V3, V3)>,
    int,
) {
    match m {
        Material::Lambertian(l) => {
            let (d, s1) = lambertian_dir_v(normal, s);
            (Some((d, l.albedo@)), s1)
        },
        Material::Metal(mt) => {
            let (o, s1) = metal_scatter_v(mt.fuzz as int, dir, normal, s);
            (
                match o {
                    Some(d) => Some((d, mt.albedo@)),
                    None => None,
                },
                s1,
            )
        },
        Material::Dielectric(dl) => (
            Some(
                (
                    dielectric_dir(
                        dir,
                        normal,
                        dielectric_eta(dl.refraction_index as int, front_face),
                    ),
                    V3 { x: SCALE as int, y: SCALE as int, z: SCALE as int },
                ),
            ),
            s,
        ),
    }
}

/// A surface material: one of the three scattering models.
#[derive(Clone, Copy, Debug, PartialEq, Eq, Structural)]
pub enum Material {
    /// Ideal diffuse reflection.
    Lambertian(Lambertian),
    /// Mirror reflection with optional fuzz.
    Metal(Metal),
    /// Refraction with total-internal-reflection fallback.
    Dielectric(Dielectric),
}

/// Well-formedness of a material's parameters.
pub open spec fn wf_material(m: Material) -> bool {
    match m {
        Material::Lambertian(l) => color_ok(l.albedo@),
        Material::Metal(mt) => color_ok(mt.albedo@) && 0 <= mt.fuzz <= SCALE,
        Material::Dielectric(d) => SCALE as int / 8 <= d.refraction_index <= 8 * (SCALE as int),
    }
}

impl Material {
    /// Scatters the incoming ray at the given hit: the result is either
    /// a new ray starting at the hit point, with its attenuation, or
    /// absorption. Diffuse and refractive surfaces always scatter; metal
    /// absorbs when the fuzzed reflection would leave below the surface.
    pub fn scatter(&self, ray: &Ray, record: &HitRecord, rng: &mut Rng) -> (r: Option<(Ray, Color)>)
        requires
            wf_material(*self),
            wf_record_geom(*record),
            bounded(ray.direction@, DIR_LIMIT as int),
            norm_sq_v(ray.direction@) >= 1,
        ensures
            r matches Some((sray, att)) ==> sray.origin == record.point && scatter_dir_ok(
                sray.direction@,
            ) && norm_sq_v(sray.direction@) >= 1 && color_ok(att@),
            !(self is Metal) ==> r.is_some(),
            ({
                let (o, s1) = scatter_spec(
                    *self,
                    ray.direction@,
                    record.normal@,
                    record.front_face,
                    old(rng).state as int,
                );
                final(rng).state as int == s1 && (match o {
                    Some((d, att)) => r matches Some((sray, a)) && sray.origin == record.point
                        && sray.direction@ == d && a@ == att,
                    None => r.is_none(),
                })
            }),
    {
        let r = match self {
            Material::Lambertian(l) => l.scatter(ray, record, rng),
            Material::Metal(mt) => mt.scatter(ray, record, rng),
            Material::Dielectric(d) => d.scatter(ray, record),
        };
        proof {
            match r {
                Some((sray, att)) => crate::vec3::lemma_not_near_zero(sray.direction@),
                None => (),
            }
        }
        r
    }
}

} // verus!
