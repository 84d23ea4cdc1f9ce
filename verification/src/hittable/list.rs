//! The aggregate of primitives: resolves the nearest hit by testing each
//! member over a range whose upper end shrinks to the best hit found so
//! far.

use vstd::prelude::*;

verus! {

use crate::fixed::within;
use crate::hittable::COORD_LIMIT;
use crate::hittable::DIR_LIMIT;
use crate::hittable::HitRecord;
use crate::hittable::sphere::Sphere;
use crate::hittable::sphere::lemma_sphere_hit_in_interval;
use crate::hittable::sphere::lemma_sphere_hit_narrow;
use crate::hittable::sphere::sphere_hit_spec;
use crate::hittable::sphere::sphere_hit_time;
use crate::hittable::sphere::wf_sphere;
use crate::interval::Interval;
use crate::ray::Ray;
use crate::vec3::MUL_LIMIT;
use crate::vec3::V3;
use crate::vec3::bounded;
use crate::vec3::dot_v;
use crate::vec3::neg_v;
use crate::vec3::norm_sq_v;

/// An ordered collection of spheres, intersected as one object.
pub struct List {
    /// The members, in insertion order.
    pub objects: Vec<Sphere>,
}

/// Every member is acceptable to the intersection test.
pub open spec fn wf_list(l: List) -> bool {
    forall|i: int| 0 <= i < l.objects@.len() ==> wf_sphere(#[trigger] l.objects@[i])
}

/// The hit that the left-to-right, range-shrinking traversal resolves
/// to: the index of the winning sphere with its time, point and outward
/// normal. Each member after the first winner is tested over the range
/// tightened to the best time so far.
pub open spec fn list_hit_fold(
    objects: Seq<Sphere>,
    origin: V3,
    dir: V3,
    t_min: int,
    t_max: int,
) -> Option<(int, int, V3, V3)>
    decreases objects.len(),
{
    if objects.len() == 0 {
        None
    } else {
        let last = objects.last();
        match list_hit_fold(objects.drop_last(), origin, dir, t_min, t_max) {
            None => match sphere_hit_spec(last.center@, last.radius as int, origin, dir, t_min, t_max) {
                Some((t, p, n)) => Some((objects.len() - 1, t, p, n)),
                None => None,
            },
            Some((i, t, p, n)) => match sphere_hit_spec(last.center@, last.radius as int, origin, dir, t_min, t) {
                Some((t2, p2, n2)) => Some((objects.len() - 1, t2, p2, n2)),
                None => Some((i, t, p, n)),
            },
        }
    }
}

/// What a member's hit may look like beside the resolved one: no hit at
/// all, or one no nearer; among equal times the earlier member wins.
pub open spec fn no_nearer_hit(t_opt: Option<int>, t: int, j: int, i: int) -> bool {
    match t_opt {
        Some(tj) => tj >= t && (j < i ==> tj > t),
        None => true,
    }
}

/// Law: the shrinking-range traversal resolves the nearest hit. The
/// winner's hit is its hit over the whole range, and every member's
/// independent hit over the whole range is no nearer — so the resolved
/// time does not depend on the order of the members.
pub proof fn lemma_list_hit_is_nearest(
    objects: Seq<Sphere>,
    origin: V3,
    dir: V3,
    t_min: int,
    t_max: int,
)
    ensures
        match list_hit_fold(objects, origin, dir, t_min, t_max) {
            Some((i, t, p, n)) => {
                &&& 0 <= i < objects.len()
                &&& sphere_hit_spec(
                    objects[i].center@,
                    objects[i].radius as int,
                    origin,
                    dir,
                    t_min,
                    t_max,
                ) == Some((t, p, n))
                &&& t_min < t < t_max
                &&& forall|j: int|
                    0 <= j < objects.len() ==> no_nearer_hit(
                        #[trigger] sphere_hit_time(objects[j], origin, dir, t_min, t_max),
                        t,
                        j,
                        i,
                    )
            },
            None => forall|j: int|
                0 <= j < objects.len() ==> #[trigger] sphere_hit_time(
                    objects[j],
                    origin,
                    dir,
                    t_min,
                    t_max,
                ) is None,
        },
    decreases objects.len(),
{
    if objects.len() > 0 {
        let pre = objects.drop_last();
        let last = objects.last();
        lemma_list_hit_is_nearest(pre, origin, dir, t_min, t_max);
        lemma_sphere_hit_in_interval(
            last.center@,
            last.radius as int,
            origin,
            dir,
            t_min,
            t_max,
        );
        assert(forall|j: int| 0 <= j < pre.len() ==> pre[j] == objects[j]);
        assert(objects[objects.len() - 1] == last);
        match list_hit_fold(pre, origin, dir, t_min, t_max) {
            None => {
            },
            Some((i, t, p, n)) => {
                lemma_sphere_hit_in_interval(
                    pre[i].center@,
                    pre[i].radius as int,
                    origin,
                    dir,
                    t_min,
                    t_max,
                );
                lemma_sphere_hit_narrow(
                    last.center@,
                    last.radius as int,
                    origin,
                    dir,
                    t_min,
                    t_max,
                    t,
                );
            },
        }
    }
}

/// Law: nearest-hit resolution is order-independent. Two collections
/// holding the same members (as a multiset) resolve a ray over the same
/// range to the same hit — time, point and outward normal — or both to
/// a miss, provided no two distinct member values strike at the
/// resolved time (the original breaks such ties by position, which a
/// permutation does not preserve).
pub proof fn lemma_nearest_hit_order_independent(
    objects1: Seq<Sphere>,
    objects2: Seq<Sphere>,
    origin: V3,
    dir: V3,
    t_min: int,
    t_max: int,
)
    requires
        objects1.to_multiset() == objects2.to_multiset(),
        match list_hit_fold(objects1, origin, dir, t_min, t_max) {
            Some((i, t, p, n)) => forall|j: int, k: int|
                0 <= j < objects1.len() && 0 <= k < objects1.len() && #[trigger] sphere_hit_time(
                    objects1[j],
                    origin,
                    dir,
                    t_min,
                    t_max,
                ) == Some(t) && #[trigger] sphere_hit_time(
                    objects1[k],
                    origin,
                    dir,
                    t_min,
                    t_max,
                ) == Some(t) ==> objects1[j] == objects1[k],
            None => true,
        },
    ensures
        match (
            list_hit_fold(objects1, origin, dir, t_min, t_max),
            list_hit_fold(objects2, origin, dir, t_min, t_max),
        ) {
            (Some((i1, t1, p1, n1)), Some((i2, t2, p2, n2))) => t1 == t2 && p1 == p2 && n1 == n2,
            (None, None) => true,
            _ => false,
        },
{
    broadcast use vstd::seq_lib::group_to_multiset_ensures;

    lemma_list_hit_is_nearest(objects1, origin, dir, t_min, t_max);
    lemma_list_hit_is_nearest(objects2, origin, dir, t_min, t_max);
    match list_hit_fold(objects1, origin, dir, t_min, t_max) {
        None => {
            match list_hit_fold(objects2, origin, dir, t_min, t_max) {
                Some((i2, t2, p2, n2)) => {
                    assert(objects2.contains(objects2[i2]));
                    assert(objects2.to_multiset().count(objects2[i2]) > 0);
                    assert(objects1.to_multiset().count(objects2[i2]) > 0);
                    assert(objects1.contains(objects2[i2]));
                    let j = choose|j: int| 0 <= j < objects1.len() && objects1[j] == objects2[i2];
                    assert(sphere_hit_time(objects1[j], origin, dir, t_min, t_max) is None);
                    assert(false);
                },
                None => {},
            }
        },
        Some((i1, t1, p1, n1)) => {
            match list_hit_fold(objects2, origin, dir, t_min, t_max) {
                None => {
                    assert(objects1.contains(objects1[i1]));
                    assert(objects1.to_multiset().count(objects1[i1]) > 0);
                    assert(objects2.to_multiset().count(objects1[i1]) > 0);
                    assert(objects2.contains(objects1[i1]));
                    let j = choose|j: int| 0 <= j < objects2.len() && objects2[j] == objects1[i1];
                    assert(sphere_hit_time(objects2[j], origin, dir, t_min, t_max) is None);
                    assert(false);
                },
                Some((i2, t2, p2, n2)) => {
                    assert(objects2.contains(objects2[i2]));
                    assert(objects2.to_multiset().count(objects2[i2]) > 0);
                    assert(objects1.to_multiset().count(objects2[i2]) > 0);
                    assert(objects1.contains(objects2[i2]));
                    let j1 = choose|j: int|
                        0 <= j < objects1.len() && objects1[j] == objects2[i2];
                    assert(no_nearer_hit(
                        sphere_hit_time(objects1[j1], origin, dir, t_min, t_max),
                        t1,
                        j1,
                        i1,
                    ));
                    assert(objects1.contains(objects1[i1]));
                    assert(objects1.to_multiset().count(objects1[i1]) > 0);
                    assert(objects2.to_multiset().count(objects1[i1]) > 0);
                    assert(objects2.contains(objects1[i1]));
                    let j2 = choose|j: int|
                        0 <= j < objects2.len() && objects2[j] == objects1[i1];
                    assert(no_nearer_hit(
                        sphere_hit_time(objects2[j2], origin, dir, t_min, t_max),
                        t2,
                        j2,
                        i2,
                    ));
                    assert(t1 == t2);
                    assert(sphere_hit_time(objects1[j1], origin, dir, t_min, t_max) == Some(t1));
                    assert(sphere_hit_time(objects1[i1], origin, dir, t_min, t_max) == Some(t1));
                    assert(objects1[j1] == objects1[i1]);
                    assert(objects2[i2] == objects1[i1]);
                },
            }
        },
    }
}

impl List {
    /// A list holding one object.
    pub fn new(object: Sphere) -> (r: List)
        ensures
            r.objects@ == seq![object],
    {
        let objects = vec![object];
        proof {
            assert(objects@ =~= seq![object]);
        }
        List { objects }
    }

    /// A list holding the given objects, in their order.
    pub fn from_vec(objects: Vec<Sphere>) -> (r: List)
        ensures
            r.objects@ == objects@,
    {
        List { objects }
    }

    /// Removes every object.
    pub fn clear(&mut self)
        ensures
            final(self).objects@.len() == 0,
    {
        self.objects.clear();
    }

    /// Appends an object.
    pub fn add(&mut self, object: Sphere)
        requires
            old(self).objects@.len() < usize::MAX,
        ensures
            final(self).objects@ == old(self).objects@.push(object),
    {
        self.objects.push(object);
    }

    /// Intersects a ray with every member and resolves the nearest hit,
    /// exactly as [`list_hit_fold`] states: the range's upper end is
    /// tightened to each hit found, so later members must strike nearer
    /// to replace the record.
    pub fn hit(&self, ray: &Ray, ray_time: Interval) -> (r: Option<HitRecord>)
        requires
            wf_list(*self),
            bounded(ray.origin@, COORD_LIMIT as int),
            bounded(ray.direction@, DIR_LIMIT as int),
            norm_sq_v(ray.direction@) >= 1,
            within(ray_time.min as int, MUL_LIMIT as int),
            within(ray_time.max as int, MUL_LIMIT as int),
        ensures
            match list_hit_fold(
                self.objects@,
                ray.origin@,
                ray.direction@,
                ray_time.min as int,
                ray_time.max as int,
            ) {
                Some((i, t, p, out)) => r matches Some(rec) && rec.time == t && rec.point@ == p
                    && 0 <= i < self.objects@.len() && rec.material == self.objects@[i].material
                    && rec.front_face == (dot_v(ray.direction@, out) < 0) && rec.normal@ == (
                if dot_v(ray.direction@, out) < 0 {
                    out
                } else {
                    neg_v(out)
                }) && crate::hittable::wf_record_geom(rec) && ray_time.min < t < ray_time.max,
                None => r.is_none(),
            },
    {
        let ghost origin = ray.origin@;
        let ghost dir = ray.direction@;
        let ghost t_min = ray_time.min as int;
        let ghost t_max = ray_time.max as int;
        let mut record: Option<HitRecord> = None;
        let mut current = ray_time;
        let n = self.objects.len();
        for idx in 0..n
            invariant
                n == self.objects@.len(),
                wf_list(*self),
                bounded(origin, COORD_LIMIT as int),
                bounded(dir, DIR_LIMIT as int),
                norm_sq_v(dir) >= 1,
                within(t_min, MUL_LIMIT as int),
                within(t_max, MUL_LIMIT as int),
                origin == ray.origin@,
                dir == ray.direction@,
                t_min == ray_time.min as int,
                t_max == ray_time.max as int,
                current.min == ray_time.min,
                within(current.max as int, MUL_LIMIT as int),
                match list_hit_fold(self.objects@.take(idx as int), origin, dir, t_min, t_max) {
                    Some((i, t, p, out)) => record matches Some(rec) && rec.time == t
                        && rec.point@ == p && 0 <= i < idx && rec.material
                        == self.objects@[i].material && rec.front_face == (dot_v(dir, out) < 0)
                        && rec.normal@ == (if dot_v(dir, out) < 0 {
                        out
                    } else {
                        neg_v(out)
                    }) && crate::hittable::wf_record_geom(rec) && t_min < t < t_max
                        && current.max == t,
                    None => record.is_none() && current.max == ray_time.max,
                },
        {
            let object = &self.objects[idx];
            let res = object.hit(ray, current);
            proof {
                let taken = self.objects@.take(idx as int + 1);
                assert(taken.drop_last() =~= self.objects@.take(idx as int));
                assert(taken.last() == self.objects@[idx as int]);
            }
            match res {
                Some(hit_record) => {
                    current = current.with_max(hit_record.time());
                    record = Some(hit_record);
                },
                None => {
                },
            }
        }
        proof {
            assert(self.objects@.take(n as int) =~= self.objects@);
        }
        record
    }
}

} // verus!
