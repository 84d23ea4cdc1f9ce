//! The sphere primitive and its ray-intersection protocol.
//!
//! The quadratic is solved in the half-b form over exact 128-bit
//! integers; [`sphere_hit_spec`] states the whole outcome — discriminant
//! test, nearest-root selection, and the range guards on the derived
//! point and normal — exactly.

use vstd::prelude::*;

verus! {

use crate::fixed::SCALE;
use crate::fixed::fmul;
use crate::fixed::fmul_v;
use crate::fixed::lemma_div_within_dividend;
use crate::fixed::lemma_sqrt_v_is_isqrt;
use crate::fixed::sqrt_v;
use crate::fixed::within;
use crate::fixed::lemma_fmul_within;
use crate::hittable::COORD_LIMIT;
use crate::hittable::DIR_LIMIT;
use crate::hittable::HitRecord;
use crate::interval::Interval;
use crate::material::Material;
use crate::material::wf_material;
use crate::ray::Ray;
use crate::ray::ray_at_v;
use crate::vec3::MUL_LIMIT;
use crate::vec3::Point3;
use crate::vec3::UNIT_LIMIT;
use crate::vec3::V3;
use crate::vec3::bounded;
use crate::vec3::dot_v;
use crate::vec3::lemma_dot_within;
use crate::vec3::lemma_norm_sq_nonneg;
use crate::vec3::near_zero_v;
use crate::vec3::neg_v;
use crate::vec3::norm_sq_v;
use crate::vec3::sdiv_v;
use crate::vec3::sub_v;
use vstd::arithmetic::div_mod::lemma_div_is_ordered;
use vstd::arithmetic::div_mod::lemma_div_pos_is_pos;

/// A sphere: a center, a radius and the material of its surface.
#[derive(Clone, Copy, Debug, PartialEq, Eq, Structural)]
pub struct Sphere {
    /// Center of the sphere.
    pub center: Point3,
    /// Radius; never negative.
    pub radius: i64,
    /// Surface material.
    pub material: Material,
}

/// A sphere the intersection test accepts: coordinates and radius in
/// world range, material parameters valid.
pub open spec fn wf_sphere(s: Sphere) -> bool {
    &&& bounded(s.center@, COORD_LIMIT as int)
    &&& 0 <= s.radius <= COORD_LIMIT
    &&& wf_material(s.material)
}

/// The range guards applied to a selected root: the hit point must be a
/// world coordinate and the outward normal must be a usable unit-scale
/// vector; otherwise the intersection counts as a miss. These guards,
/// and the zero-radius miss above them, are resolution and world-range
/// limits of the fixed-point representation: a sphere thinner than one
/// unit of resolution, or a hit beyond the world range, cannot carry a
/// meaningful normal, where exact real arithmetic would still produce
/// one.
pub open spec fn sphere_hit_guard(center: V3, radius: int, origin: V3, dir: V3, t_opt: Option<
    int,
>) -> Option<(int, V3, V3)> {
    match t_opt {
        None => None,
        Some(t) => {
            let point = ray_at_v(origin, dir, t);
            if !bounded(point, COORD_LIMIT as int) {
                None
            } else {
                let outward = sdiv_v(sub_v(point, center), radius);
                if bounded(outward, UNIT_LIMIT as int) && !near_zero_v(outward) {
                    Some((t, point, outward))
                } else {
                    None
                }
            }
        },
    }
}

/// The discriminant of the intersection quadratic, in the half-b form.
pub open spec fn sphere_disc(center: V3, radius: int, origin: V3, dir: V3) -> int {
    let oc = sub_v(center, origin);
    let a = norm_sq_v(dir);
    let h = dot_v(dir, oc);
    let c = norm_sq_v(oc) - fmul_v(radius, radius);
    h * h - a * c
}

/// The analytically nearer root of the intersection quadratic.
pub open spec fn sphere_root_near(center: V3, radius: int, origin: V3, dir: V3) -> int {
    let oc = sub_v(center, origin);
    let a = norm_sq_v(dir);
    let h = dot_v(dir, oc);
    let sq = sqrt_v(sphere_disc(center, radius, origin, dir));
    ((h - sq) * (SCALE as int)) / a
}

/// The analytically farther root of the intersection quadratic.
pub open spec fn sphere_root_far(center: V3, radius: int, origin: V3, dir: V3) -> int {
    let oc = sub_v(center, origin);
    let a = norm_sq_v(dir);
    let h = dot_v(dir, oc);
    let sq = sqrt_v(sphere_disc(center, radius, origin, dir));
    ((h + sq) * (SCALE as int)) / a
}

/// The outcome of intersecting a ray with a sphere over the open range
/// from `t_min` to `t_max`: the time, hit point and outward unit normal,
/// or a miss. The nearer root is taken when the range surrounds it, else
/// the farther, else the result is a miss.
pub open spec fn sphere_hit_spec(
    center: V3,
    radius: int,
    origin: V3,
    dir: V3,
    t_min: int,
    t_max: int,
) -> Option<(int, V3, V3)> {
    if radius <= 0 {
        None
    } else {
        let a = norm_sq_v(dir);
        let disc = sphere_disc(center, radius, origin, dir);
        if a <= 0 || disc < 0 {
            None
        } else {
            let t1 = sphere_root_near(center, radius, origin, dir);
            let t2 = sphere_root_far(center, radius, origin, dir);
            sphere_hit_guard(
                center,
                radius,
                origin,
                dir,
                if t_min < t1 && t1 < t_max {
                    Some(t1)
                } else if t_min < t2 && t2 < t_max {
                    Some(t2)
                } else {
                    None
                },
            )
        }
    }
}

/// Law: the nearer root is preferred. A hit's time is always one of the
/// quadratic's two roots; it is the nearer root whenever the queried
/// range surrounds that root, and the farther root only when the range
/// does not surround the nearer one.
pub proof fn lemma_nearer_root_preferred(
    center: V3,
    radius: int,
    origin: V3,
    dir: V3,
    t_min: int,
    t_max: int,
)
    ensures
        sphere_hit_spec(center, radius, origin, dir, t_min, t_max) matches Some((t, p, n)) ==> {
            let t1 = sphere_root_near(center, radius, origin, dir);
            let t2 = sphere_root_far(center, radius, origin, dir);
            &&& t == t1 || t == t2
            &&& (t_min < t1 < t_max ==> t == t1)
            &&& (t != t1 ==> !(t_min < t1 < t_max))
        },
{
}

/// The hit time alone, for stating which sphere a list resolves to.
pub open spec fn sphere_hit_time(s: Sphere, origin: V3, dir: V3, t_min: int, t_max: int) -> Option<
    int,
> {
    match sphere_hit_spec(s.center@, s.radius as int, origin, dir, t_min, t_max) {
        Some((t, p, n)) => Some(t),
        None => None,
    }
}

/// A hit's time lies strictly inside the queried range.
pub proof fn lemma_sphere_hit_in_interval(
    center: V3,
    radius: int,
    origin: V3,
    dir: V3,
    t_min: int,
    t_max: int,
)
    ensures
        sphere_hit_spec(center, radius, origin, dir, t_min, t_max) matches Some((t, p, n))
            ==> t_min < t < t_max,
{
}

/// Law: tightening the upper end of the range keeps exactly the hits
/// that are nearer than the new end, unchanged. This is what makes the
/// list's shrinking-range traversal resolve the overall nearest hit.
pub proof fn lemma_sphere_hit_narrow(
    center: V3,
    radius: int,
    origin: V3,
    dir: V3,
    t_min: int,
    t_max: int,
    t_new: int,
)
    requires
        t_new <= t_max,
    ensures
        sphere_hit_spec(center, radius, origin, dir, t_min, t_new) == (match sphere_hit_spec(
            center,
            radius,
            origin,
            dir,
            t_min,
            t_max,
        ) {
            Some((t, p, n)) => if t < t_new {
                Some((t, p, n))
            } else {
                None::<(int, V3, V3)>
            },
            None => None::<(int, V3, V3)>,
        }),
{
    if radius > 0 {
        let a = norm_sq_v(dir);
        let disc = sphere_disc(center, radius, origin, dir);
        if a > 0 && disc >= 0 {
            let h = dot_v(dir, sub_v(center, origin));
            let sq = sqrt_v(disc);
            lemma_sqrt_v_is_isqrt(disc);
            lemma_div_is_ordered((h - sq) * (SCALE as int), (h + sq) * (SCALE as int), a);
        }
    }
}

impl Sphere {
    /// A sphere from its parts; a negative radius is clamped to zero.
    pub fn new(center: Point3, radius: i64, material: Material) -> (r: Sphere)
        ensures
            r.center == center,
            r.material == material,
            r.radius == (if radius < 0 {
                0int
            } else {
                radius as int
            }),
    {
        Sphere { center, radius: if radius < 0 { 0 } else { radius }, material }
    }

    /// Intersects a ray with this sphere over the open range `ray_time`,
    /// resolving exactly to [`sphere_hit_spec`]; on a hit the record's
    /// normal is the outward normal oriented against the ray. An
    /// in-range root whose hit point leaves the world range, or whose
    /// normal degenerates at this resolution, counts as a miss — see
    /// [`sphere_hit_guard`].
    pub fn hit(&self, ray: &Ray, ray_time: Interval) -> (r: Option<HitRecord>)
        requires
            wf_sphere(*self),
            bounded(ray.origin@, COORD_LIMIT as int),
            bounded(ray.direction@, DIR_LIMIT as int),
            norm_sq_v(ray.direction@) >= 1,
            within(ray_time.min as int, MUL_LIMIT as int),
            within(ray_time.max as int, MUL_LIMIT as int),
        ensures
            match sphere_hit_spec(
                self.center@,
                self.radius as int,
                ray.origin@,
                ray.direction@,
                ray_time.min as int,
                ray_time.max as int,
            ) {
                Some((t, p, out)) => r matches Some(rec) && rec.time == t && rec.point@ == p
                    && rec.material == self.material && rec.front_face == (dot_v(
                    ray.direction@,
                    out,
                ) < 0) && rec.normal@ == (if dot_v(ray.direction@, out) < 0 {
                    out
                } else {
                    neg_v(out)
                }) && crate::hittable::wf_record_geom(rec) && ray_time.min < t < ray_time.max,
                None => r.is_none(),
            },
    {
        if self.radius <= 0 {
            return None;
        }
        let origin_center = self.center.sub(ray.origin());
        let a = ray.direction().length_squared();
        let h = ray.direction().dot(&origin_center);
        proof {
            lemma_norm_sq_nonneg(origin_center@);
            assert(3 * (DIR_LIMIT as int) * (DIR_LIMIT as int) <= (0xC0_0000_0000_0000int) * (
            SCALE as int)) by (nonlinear_arith);
            lemma_dot_within(
                ray.direction@,
                ray.direction@,
                DIR_LIMIT as int,
                DIR_LIMIT as int,
                0xC0_0000_0000_0000,
            );
            assert(3 * (DIR_LIMIT as int) * 0x1_0000_0000 <= (0x30_0000_0000_0000int) * (
            SCALE as int)) by (nonlinear_arith);
            lemma_dot_within(
                ray.direction@,
                origin_center@,
                DIR_LIMIT as int,
                0x1_0000_0000,
                0x30_0000_0000_0000,
            );
            assert(3 * 0x1_0000_0000 * 0x1_0000_0000 <= (0x3_0000_0000_0000int) * (SCALE as int))
                by (nonlinear_arith);
            lemma_dot_within(
                origin_center@,
                origin_center@,
                0x1_0000_0000,
                0x1_0000_0000,
                0x3_0000_0000_0000,
            );
            assert((COORD_LIMIT as int) * (COORD_LIMIT as int) <= (0x4000_0000_0000int) * (
            SCALE as int)) by (nonlinear_arith);
            lemma_fmul_within(
                self.radius as int,
                self.radius as int,
                COORD_LIMIT as int,
                COORD_LIMIT as int,
                0x4000_0000_0000,
            );
            assert(0 <= (self.radius as int) * (self.radius as int)) by (nonlinear_arith);
            lemma_div_pos_is_pos((self.radius as int) * (self.radius as int), SCALE as int);
        }
        let rr = fmul(self.radius, self.radius);
        let c = origin_center.length_squared() - rr;
        proof {
            assert(within((h as int) * (h as int), 0x1_0000_0000_0000_0000_0000_0000_0000i128 as int)
                && within(
                (a as int) * (c as int),
                0x1_0000_0000_0000_0000_0000_0000_0000i128 as int,
            )) by (nonlinear_arith)
                requires
                    within(h as int, (0x30_0000_0000_0000 + 1) as int),
                    0 <= a as int <= 0xC0_0000_0000_0000 + 1,
                    within(c as int, (0x3_0000_0000_0000 + 0x4000_0000_0000 + 2) as int),
            ;
        }
        let disc: i128 = (h as i128) * (h as i128) - (a as i128) * (c as i128);
        if disc < 0 {
            return None;
        }
        proof {
            lemma_sqrt_v_is_isqrt(disc as int);
        }
        let sq_u = crate::fixed::isqrt128(disc as u128);
        proof {
            assert((sq_u as int) * (sq_u as int) <= disc as int);
            assert(sq_u as int <= 0x200_0000_0000_0000i64 as int) by (nonlinear_arith)
                requires
                    0 <= sq_u as int,
                    (sq_u as int) * (sq_u as int) <= disc as int,
                    disc as int <= 0x2_0000_0000_0000_0000_0000_0000_0000i128 as int,
            ;
        }
        let sq: i64 = sq_u as i64;
        let t1 = quad_root(h, sq, a, true);
        let t2 = quad_root(h, sq, a, false);
        let lo = ray_time.min() as i128;
        let hi = ray_time.max() as i128;
        let root: i128 = if lo < t1 && t1 < hi {
            t1
        } else if lo < t2 && t2 < hi {
            t2
        } else {
            return None;
        };
        let t = root as i64;
        let point = ray.at(t);
        if !in_coord_range(&point) {
            return None;
        }
        let outward = point.sub(&self.center).div(self.radius);
        if !in_unit_range(&outward) || outward.near_zero() {
            return None;
        }
        Some(HitRecord::new(point, outward, t, ray, self.material))
    }
}

/// One root of the intersection quadratic: `(h ∓ sq) / a`, rescaled and
/// rounded toward negative infinity, over 128-bit intermediates.
fn quad_root(h: i64, sq: i64, a: i64, near: bool) -> (r: i128)
    requires
        a >= 1,
        sq >= 0,
    ensures
        r as int == (if near {
            ((h - sq) * (SCALE as int)) / (a as int)
        } else {
            ((h + sq) * (SCALE as int)) / (a as int)
        }),
{
    let num: i128 = if near {
        ((h as i128) - (sq as i128)) * 65536
    } else {
        ((h as i128) + (sq as i128)) * 65536
    };
    proof {
        lemma_div_within_dividend(num as int, a as int);
    }
    num.checked_div_euclid(a as i128).unwrap()
}

/// Whether every coordinate of a point lies in the world range.
fn in_coord_range(p: &Point3) -> (r: bool)
    ensures
        r == bounded(p@, COORD_LIMIT as int),
{
    -COORD_LIMIT <= p.x && p.x <= COORD_LIMIT && -COORD_LIMIT <= p.y && p.y <= COORD_LIMIT
        && -COORD_LIMIT <= p.z && p.z <= COORD_LIMIT
}

/// Whether every component of a normal lies in the unit-scale range.
fn in_unit_range(p: &Point3) -> (r: bool)
    ensures
        r == bounded(p@, UNIT_LIMIT as int),
{
    -UNIT_LIMIT <= p.x && p.x <= UNIT_LIMIT && -UNIT_LIMIT <= p.y && p.y <= UNIT_LIMIT
        && -UNIT_LIMIT <= p.z && p.z <= UNIT_LIMIT
}

} // verus!
