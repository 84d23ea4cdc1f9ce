//! Intersectable geometry: the hit record, the sphere primitive and the
//! aggregate list that resolves the nearest hit.

use vstd::prelude::*;

pub mod list;
pub mod sphere;

verus! {

use crate::material::Material;
use crate::ray::Ray;
use crate::vec3::Point3;
use crate::vec3::UNIT_LIMIT;
use crate::vec3::Vec3;
use crate::vec3::bounded;
use crate::vec3::dot_v;
use crate::vec3::near_zero_v;
use crate::vec3::neg_v;
use crate::vec3::norm_sq_v;

/// Magnitude cap on world-space coordinates: scene centers, ray origins
/// and hit points all stay within it.
pub const COORD_LIMIT: i64 = 0x8000_0000;

/// Magnitude cap on ray direction components; wide enough for every
/// direction a camera or a scatter event produces.
pub const DIR_LIMIT: i64 = 0x4_0000_0000;

/// A ray the intersection tests accept: coordinates in range and a
/// direction that is not degenerate.
pub open spec fn wf_ray(r: Ray) -> bool {
    &&& bounded(r.origin@, COORD_LIMIT as int)
    &&& bounded(r.direction@, DIR_LIMIT as int)
    &&& norm_sq_v(r.direction@) >= 1
}

/// What intersection hands to shading: where the ray hit, the surface
/// normal oriented against the ray, the ray parameter, which side was
/// struck, and the material to shade with.
#[derive(Clone, Copy, Debug, PartialEq, Eq, Structural)]
pub struct HitRecord {
    /// World-space hit location.
    pub point: Point3,
    /// Unit surface normal, oriented against the incoming ray.
    pub normal: Vec3,
    /// Material of the primitive that was hit.
    pub material: Material,
    /// Ray parameter of the hit.
    pub time: i64,
    /// Whether the geometric outward normal already pointed against the
    /// ray.
    pub front_face: bool,
}

/// Geometric well-formedness of a record: the hit point is a world
/// coordinate and the normal is a usable unit-scale vector.
pub open spec fn wf_record_geom(rec: HitRecord) -> bool {
    &&& bounded(rec.point@, COORD_LIMIT as int)
    &&& bounded(rec.normal@, UNIT_LIMIT as int)
    &&& !near_zero_v(rec.normal@)
}

impl HitRecord {
    /// A record from the raw intersection data: the normal is flipped to
    /// face against the ray, and the flip is remembered in `front_face`.
    /// The parameter `outward_normal` is assumed to have unit length.
    pub fn new(point: Point3, outward_normal: Vec3, time: i64, ray: &Ray, material: Material) -> (r:
        HitRecord)
        requires
            bounded(ray.direction@, DIR_LIMIT as int),
            bounded(outward_normal@, UNIT_LIMIT as int),
        ensures
            r.point == point,
            r.time == time,
            r.material == material,
            r.front_face == (dot_v(ray.direction@, outward_normal@) < 0),
            r.normal@ == (if dot_v(ray.direction@, outward_normal@) < 0 {
                outward_normal@
            } else {
                neg_v(outward_normal@)
            }),
    {
        let front_face = ray.direction().dot(&outward_normal) < 0;
        let normal = if front_face {
            outward_normal
        } else {
            outward_normal.neg()
        };
        HitRecord { point, normal, material, time, front_face }
    }

    /// The world-space hit location.
    pub fn point(&self) -> (r: &Point3)
        ensures
            r == self.point,
    {
        &self.point
    }

    /// The unit surface normal, oriented against the incoming ray.
    pub fn normal(&self) -> (r: &Vec3)
        ensures
            r == self.normal,
    {
        &self.normal
    }

    /// The ray parameter of the hit.
    pub fn time(&self) -> (r: i64)
        ensures
            r == self.time,
    {
        self.time
    }

    /// Whether the outward normal already pointed against the ray.
    pub fn front_face(&self) -> (r: bool)
        ensures
            r == self.front_face,
    {
        self.front_face
    }

    /// The material of the primitive that was hit.
    pub fn material(&self) -> (r: &Material)
        ensures
            r == self.material,
    {
        &self.material
    }
}

} // verus!
