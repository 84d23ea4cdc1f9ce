//! The refractive material: Snell refraction with a total-internal-
//! reflection fallback; no absorption.

use vstd::prelude::*;

verus! {

use crate::fixed::SCALE;
use crate::fixed::clamp;
use crate::fixed::clamp_v;
use crate::fixed::fdiv;
use crate::fixed::fdiv_v;
use crate::fixed::fmul;
use crate::fixed::fmul_v;
use crate::fixed::lemma_fdiv_within;
use crate::fixed::lemma_fmul_within;
use crate::fixed::sqrt_fx;
use crate::fixed::sqrt_v;
use crate::color::Color;
use crate::hittable::DIR_LIMIT;
use crate::hittable::HitRecord;
use crate::hittable::wf_record_geom;
use crate::material::scatter_dir_ok;
use crate::ray::Ray;
use crate::vec3::UNIT_LIMIT;
use crate::vec3::V3;
use crate::vec3::bounded;
use crate::vec3::dot_v;
use crate::vec3::lemma_dot_within;
use crate::vec3::near_zero_v;
use crate::vec3::neg_v;
use crate::vec3::norm_sq_v;
use crate::vec3::reflect_v;
use crate::vec3::refract_v;
use crate::vec3::unit_v;
use vstd::arithmetic::div_mod::lemma_div_by_multiple;
use vstd::arithmetic::div_mod::lemma_div_is_ordered;
use vstd::arithmetic::div_mod::lemma_div_pos_is_pos;

/// Refraction through a clear surface.
#[derive(Clone, Copy, Debug, PartialEq, Eq, Structural)]
pub struct Dielectric {
    /// Refractive index relative to the enclosing medium.
    pub refraction_index: i64,
}

/// The effective ratio of refraction indices at a hit: inverted when the
/// ray enters the surface from outside, and kept in the ratio range the
/// refraction accepts.
pub open spec fn dielectric_eta(ri: int, front_face: bool) -> int {
    if front_face {
        clamp_v(fdiv_v(SCALE as int, ri), 1, 8 * (SCALE as int))
    } else {
        ri
    }
}

/// The scattered direction of a dielectric hit, exactly: the unit
/// incoming direction is either reflected (at total internal reflection)
/// or refracted; a degenerate result falls back to the surface normal.
pub open spec fn dielectric_dir(dir: V3, normal: V3, eta: int) -> V3 {
    let u = unit_v(dir);
    let cos_theta = clamp_v(dot_v(neg_v(u), normal), -(SCALE as int), SCALE as int);
    let k = (SCALE as int) - fmul_v(cos_theta, cos_theta);
    let sin_theta = sqrt_v(k * (SCALE as int));
    let d = if fmul_v(eta, sin_theta) > SCALE as int {
        reflect_v(u, normal)
    } else {
        refract_v(u, normal, eta)
    };
    if near_zero_v(d) {
        normal
    } else {
        d
    }
}

impl Dielectric {
    /// A refractive material with the given relative index.
    pub fn new(refraction_index: i64) -> (r: Dielectric)
        ensures
            r.refraction_index == refraction_index,
    {
        Dielectric { refraction_index }
    }

    /// Always scatters, with no attenuation: white. The side that was
    /// struck picks the ratio of indices; at total internal reflection
    /// the ray reflects instead of refracting.
    pub fn scatter(&self, ray: &Ray, record: &HitRecord) -> (r: Option<(Ray, Color)>)
        requires
            SCALE as int / 8 <= self.refraction_index <= 8 * (SCALE as int),
            wf_record_geom(*record),
            bounded(ray.direction@, DIR_LIMIT as int),
            norm_sq_v(ray.direction@) >= 1,
        ensures
            r matches Some((sray, att)) ==> sray.origin == record.point && scatter_dir_ok(
                sray.direction@,
            ) && att@ == (V3 { x: SCALE as int, y: SCALE as int, z: SCALE as int })
                && sray.direction@ == dielectric_dir(
                ray.direction@,
                record.normal@,
                dielectric_eta(self.refraction_index as int, record.front_face),
            ),
            r.is_some(),
    {
        let refraction_index = if record.front_face() {
            proof {
                lemma_fdiv_within(SCALE as int, self.refraction_index as int, SCALE as int);
            }
            let e = fdiv(SCALE, self.refraction_index);
            clamp(e, 1, 8 * SCALE)
        } else {
            self.refraction_index
        };

        let unit_direction = ray.direction().unit_vector();
        let d = unit_direction.neg().dot(record.normal());
        proof {
            assert(3 * (UNIT_LIMIT as int) * (UNIT_LIMIT as int) <= (27 * SCALE) as int * (
            SCALE as int)) by (nonlinear_arith);
            lemma_dot_within(
                neg_v(unit_direction@),
                record.normal@,
                UNIT_LIMIT as int,
                UNIT_LIMIT as int,
                (27 * SCALE) as int,
            );
        }
        let cos_theta = clamp(d, -SCALE, SCALE);
        proof {
            lemma_fmul_within(
                cos_theta as int,
                cos_theta as int,
                SCALE as int,
                SCALE as int,
                SCALE as int,
            );
            assert(0 <= (cos_theta as int) * (cos_theta as int)) by (nonlinear_arith);
            lemma_div_pos_is_pos((cos_theta as int) * (cos_theta as int), SCALE as int);
            assert((cos_theta as int) * (cos_theta as int) <= (SCALE as int) * (SCALE as int))
                by (nonlinear_arith)
                requires
                    -(SCALE as int) <= cos_theta as int <= SCALE as int,
            ;
            lemma_div_is_ordered(
                (cos_theta as int) * (cos_theta as int),
                (SCALE as int) * (SCALE as int),
                SCALE as int,
            );
            lemma_div_by_multiple(SCALE as int, SCALE as int);
        }
        let cos_sq = fmul(cos_theta, cos_theta);
        let k = SCALE - cos_sq;
        let sin_theta = sqrt_fx(k);
        proof {
            assert(sin_theta as int <= SCALE as int) by (nonlinear_arith)
                requires
                    0 <= sin_theta as int,
                    (sin_theta as int) * (sin_theta as int) <= (k as int) * (SCALE as int),
                    k as int <= SCALE as int,
            ;
            lemma_fmul_within(
                refraction_index as int,
                sin_theta as int,
                (8 * SCALE) as int,
                SCALE as int,
                (8 * SCALE) as int,
            );
        }
        let direction = if fmul(refraction_index, sin_theta) > SCALE {
            unit_direction.reflect(record.normal())
        } else {
            unit_direction.refract(record.normal(), refraction_index)
        };
        let direction = if direction.near_zero() {
            *record.normal()
        } else {
            direction
        };
        let attenuation = Color::new(SCALE, SCALE, SCALE);
        let scattered = Ray::new(*record.point(), direction);
        Some((scattered, attenuation))
    }
}

} // verus!
