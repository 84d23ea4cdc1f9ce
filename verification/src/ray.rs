//! Rays: an origin and a direction, with evaluation at a parameter.

use vstd::prelude::*;

verus! {

use crate::fixed::within;
use crate::vec3::MUL_LIMIT;
use crate::vec3::Point3;
use crate::vec3::V3;
use crate::vec3::Vec3;
use crate::vec3::add_v;
use crate::vec3::bounded;
use crate::vec3::lemma_smul_bounded;
use crate::vec3::smul_v;

/// A ray: all points `origin + t * direction`. The direction is not
/// normalized; its magnitude carries the parameterization scale.
#[derive(Clone, Copy, Debug, PartialEq, Eq, Structural)]
pub struct Ray {
    /// Starting point.
    pub origin: Point3,
    /// Direction of travel, scaling the parameter.
    pub direction: Vec3,
}

/// The point a ray reaches at parameter `t`.
pub open spec fn ray_at_v(origin: V3, direction: V3, t: int) -> V3 {
    add_v(origin, smul_v(direction, t))
}

impl Ray {
    /// A ray from its origin and direction.
    pub fn new(origin: Point3, direction: Vec3) -> (r: Ray)
        ensures
            r.origin == origin,
            r.direction == direction,
    {
        Ray { origin, direction }
    }

    /// The starting point.
    pub fn origin(&self) -> (r: &Point3)
        ensures
            r == self.origin,
    {
        &self.origin
    }

    /// The direction of travel.
    pub fn direction(&self) -> (r: &Vec3)
        ensures
            r == self.direction,
    {
        &self.direction
    }

    /// The point reached at parameter `time`.
    pub fn at(&self, time: i64) -> (r: Point3)
        requires
            bounded(self.origin@, MUL_LIMIT as int),
            bounded(self.direction@, MUL_LIMIT as int),
            within(time as int, MUL_LIMIT as int),
        ensures
            r@ == ray_at_v(self.origin@, self.direction@, time as int),
    {
        proof {
            lemma_smul_bounded(
                self.direction@,
                time as int,
                MUL_LIMIT as int,
                MUL_LIMIT as int,
                0x1000_0000_0000_0000,
            );
        }
        let step = self.direction.scale(time);
        self.origin.add(&step)
    }
}

} // verus!
