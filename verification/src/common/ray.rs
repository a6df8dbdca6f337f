//! A ray: an origin and an (unnormalized) direction.

use crate::common::vec3::{spec_add, spec_scale, Point, Vec3};
use vstd::prelude::*;

verus! {

/// A half-line `origin + t * direction`, created fresh per primary or
/// scattered ray and immutable afterwards.
#[derive(Clone, Copy, Debug, PartialEq, Eq, Structural)]
pub struct Ray {
    pub origin: Point,
    pub direction: Vec3,
}

/// The point the ray reaches at parameter `t` (a fixed-point scalar).
pub open spec fn spec_ray_at(ray: Ray, t: int) -> Point {
    spec_add(ray.origin, spec_scale(ray.direction, t))
}

impl Ray {
    pub open spec fn wf(self) -> bool {
        self.origin.wf() && self.direction.wf()
    }

    pub fn new(origin: Point, direction: Vec3) -> (r: Self)
        ensures
            r.origin == origin,
            r.direction == direction,
    {
        Self { origin, direction }
    }

    pub fn at(&self, t: i64) -> (p: Point)
        ensures
            p == spec_ray_at(*self, t as int),
            p.wf(),
    {
        self.origin.add(&self.direction.scale(t))
    }
}

} // verus!
