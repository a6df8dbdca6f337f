//! Scene intersection: hit records and the closed set of scene objects.

pub mod hit_list;
pub mod sphere;

use crate::common::ray::Ray;
use crate::common::vec3::{spec_dot, spec_neg, Point, Vec3};
use crate::material::Material;
use sphere::{spec_sphere_hit, Sphere};
use vstd::prelude::*;

verus! {

/// A successful intersection: the point reached, the unit-ish surface
/// normal always oriented against the incoming ray, the ray parameter, the
/// side of the surface that was struck, and the surface's material.
#[derive(Clone, Copy, Debug)]
pub struct HitRecord {
    pub point: Point,
    pub normal: Vec3,
    pub time: i64,
    pub front_face: bool,
    pub material: Material,
}

/// The record a hit constructs: `front_face` holds exactly when the ray
/// direction and the outward normal point against each other, and the
/// stored normal is the outward normal flipped to face the ray otherwise.
pub open spec fn spec_hit_record(
    point: Point,
    time: i64,
    material: Material,
    ray: Ray,
    outward_normal: Vec3,
) -> HitRecord {
    let front_face = spec_dot(ray.direction, outward_normal) < 0;
    HitRecord {
        point,
        time,
        material,
        front_face,
        normal: if front_face {
            outward_normal
        } else {
            spec_neg(outward_normal)
        },
    }
}

impl HitRecord {
    pub fn new(
        point: Point,
        time: i64,
        material: Material,
        ray: &Ray,
        outward_normal: &Vec3,
    ) -> (r: Self)
        requires
            ray.direction.wf(),
            outward_normal.wf(),
        ensures
            r == spec_hit_record(point, time, material, *ray, *outward_normal),
            r.normal.wf(),
    {
        let front_face = ray.direction.dot(outward_normal) < 0;
        Self {
            point,
            time,
            material,
            front_face,
            normal: if front_face {
                *outward_normal
            } else {
                outward_normal.neg()
            },
        }
    }
}

/// A scene object.  The object set is closed, so intersection is a
/// dispatch over a small fixed set of variants.
#[derive(Clone, Copy, Debug)]
pub enum Hittable {
    Sphere(Sphere),
}

pub open spec fn spec_hittable_hit(obj: Hittable, ray: Ray, t_min: i64, t_max: i64) -> Option<
    HitRecord,
> {
    match obj {
        Hittable::Sphere(s) => spec_sphere_hit(s, ray, t_min, t_max),
    }
}

/// Tightening the upper bound can only drop an object's hit, never change
/// it (dispatch of the sphere's monotonicity over the object variants).
pub proof fn lemma_hittable_hit_tightens(obj: Hittable, ray: Ray, t_min: i64, t1: i64, t2: i64)
    requires
        t1 <= t2,
    ensures
        spec_hittable_hit(obj, ray, t_min, t1) == match spec_hittable_hit(obj, ray, t_min, t2) {
            Some(rec) => if rec.time <= t1 {
                Some(rec)
            } else {
                None::<HitRecord>
            },
            None => None::<HitRecord>,
        },
{
    match obj {
        Hittable::Sphere(s) => {
            crate::hittable::sphere::lemma_sphere_hit_tightens(s, ray, t_min, t1, t2);
        },
    }
}

/// A reported hit's parameter lies inside the queried interval.
pub proof fn lemma_hittable_hit_in_range(obj: Hittable, ray: Ray, t_min: i64, t_max: i64)
    ensures
        spec_hittable_hit(obj, ray, t_min, t_max) matches Some(rec) ==> t_min <= rec.time
            <= t_max,
{
    match obj {
        Hittable::Sphere(s) => {
            crate::hittable::sphere::lemma_sphere_hit_in_range(s, ray, t_min, t_max);
        },
    }
}

impl Hittable {
    /// The object's material satisfies the data-model invariants.
    pub open spec fn wf(self) -> bool {
        match self {
            Hittable::Sphere(s) => s.material.wf(),
        }
    }

    /// Intersect the ray with this object over `[t_min, t_max]`.
    pub fn hit(&self, ray: &Ray, t_min: i64, t_max: i64) -> (r: Option<HitRecord>)
        ensures
            r == spec_hittable_hit(*self, *ray, t_min, t_max),
    {
        match self {
            Hittable::Sphere(s) => s.hit(ray, t_min, t_max),
        }
    }
}

} // verus!
