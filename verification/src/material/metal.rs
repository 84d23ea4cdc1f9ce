//! The reflective material: mirror reflection, roughened by a fuzz
//! factor, absorbing rays that the fuzz pushes below the surface.

use vstd::prelude::*;

verus! {

use crate::fixed::SCALE;
use crate::color::Color;
use crate::hittable::DIR_LIMIT;
use crate::hittable::HitRecord;
use crate::hittable::wf_record_geom;
use crate::material::color_ok;
use crate::material::scatter_dir_ok;
use crate::ray::Ray;
use crate::rng::Rng;
use crate::vec3::UNIT_LIMIT;
use crate::vec3::Vec3;
use crate::vec3::bounded;
use crate::vec3::dot_v;
use crate::vec3::lemma_not_near_zero;
use crate::vec3::lemma_smul_bounded;
use crate::vec3::norm_sq_v;
use crate::vec3::SAMPLE_ATTEMPTS;
use crate::vec3::V3;
use crate::vec3::add_v;
use crate::vec3::near_zero_v;
use crate::vec3::reflect_v;
use crate::vec3::smul_v;
use crate::vec3::sphere_sample_v;
use crate::vec3::unit_v;
use crate::fixed::clamp;
use crate::fixed::clamp_v;

/// The outcome of a metal hit: the reflection of the normalized
/// incoming direction, perturbed by a sphere sample scaled by the fuzz;
/// absorbed (and no sample drawn) when the reflection itself
/// degenerates, and absorbed after the sample when the perturbed
/// direction degenerates or does not point away from the surface.
pub open spec fn metal_scatter_v(fuzz: int, dir: V3, normal: V3, s: int) -> (Option<V3>, int) {
    let reflected = reflect_v(unit_v(dir), normal);
    if near_zero_v(reflected) {
        (None, s)
    } else {
        let (u, s1) = sphere_sample_v(s, SAMPLE_ATTEMPTS as nat);
        let d = add_v(unit_v(reflected), smul_v(u, fuzz));
        (
            if !near_zero_v(d) && dot_v(d, normal) >= 1 {
                Some(d)
            } else {
                None
            },
            s1,
        )
    }
}

/// Mirror reflection with a base color and a fuzz in the unit range.
#[derive(Clone, Copy, Debug, PartialEq, Eq, Structural)]
pub struct Metal {
    /// Base reflected color.
    pub albedo: Color,
    /// Reflection-direction perturbation magnitude, at most one.
    pub fuzz: i64,
}

impl Metal {
    /// A metal with the given base color; the fuzz is clamped into the
    /// unit range.
    pub fn new(albedo: Color, fuzz: i64) -> (r: Metal)
        ensures
            r.albedo == albedo,
            r.fuzz as int == clamp_v(fuzz as int, 0, SCALE as int),
    {
        Metal { albedo, fuzz: clamp(fuzz, 0, SCALE) }
    }

    /// Reflects the normalized incoming direction about the normal,
    /// renormalizes the reflection and perturbs it by a random vector
    /// scaled by the fuzz (normalizing before reflecting is equal, in
    /// exact arithmetic, to reflecting first). The ray is absorbed when
    /// the perturbed direction does not point away from the surface, or
    /// degenerates at this resolution — so even a polished metal is not
    /// promised to scatter: the floored inner product of the
    /// renormalized reflection with the normal can round to zero. The
    /// outcome is pinned exactly by [`metal_scatter_v`].
    pub fn scatter(&self, ray: &Ray, record: &HitRecord, rng: &mut Rng) -> (r: Option<(Ray, Color)>)
        requires
            color_ok(self.albedo@),
            0 <= self.fuzz <= SCALE,
            wf_record_geom(*record),
            bounded(ray.direction@, DIR_LIMIT as int),
            norm_sq_v(ray.direction@) >= 1,
        ensures
            r matches Some((sray, att)) ==> sray.origin == record.point && scatter_dir_ok(
                sray.direction@,
            ) && att == self.albedo && dot_v(sray.direction@, record.normal@) >= 1,
            ({
                let (o, s1) = metal_scatter_v(
                    self.fuzz as int,
                    ray.direction@,
                    record.normal@,
                    old(rng).state as int,
                );
                final(rng).state as int == s1 && (match o {
                    Some(d) => r matches Some((sray, att)) && sray.direction@ == d,
                    None => r.is_none(),
                })
            }),
    {
        let d_unit = ray.direction().unit_vector();
        let reflected = d_unit.reflect(record.normal());
        if reflected.near_zero() {
            return None;
        }
        proof {
            lemma_not_near_zero(reflected@);
        }
        let base = reflected.unit_vector();
        let u = Vec3::random_unit_vector(rng);
        proof {
            lemma_smul_bounded(
                u@,
                self.fuzz as int,
                UNIT_LIMIT as int,
                SCALE as int,
                (3 * SCALE) as int,
            );
        }
        let fz = u.scale(self.fuzz);
        let scattered_direction = base.add(&fz);
        if scattered_direction.near_zero() {
            return None;
        }
        let scattered = Ray::new(*record.point(), scattered_direction);
        if scattered.direction().dot(record.normal()) > 0 {
            Some((scattered, self.albedo))
        } else {
            None
        }
    }
}

} // verus!
