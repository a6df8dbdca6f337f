//! Ideal diffuse reflectance.

use crate::common::random::Rng;
use crate::common::ray::Ray;
use crate::common::vec3::{
    color_in_unit, in_unit_sphere, len_sq_raw, spec_add, spec_near_zero, spec_unit, Color, Vec3,
    UNIT_SAMPLE_MIN_SQ,
};
use crate::hittable::HitRecord;
use crate::material::ScatterRecord;
use vstd::prelude::*;

verus! {

/// The diffuse scatter direction for a unit-ball sample `s`: the normal
/// perturbed by the normalized sample, or the bare normal when the
/// perturbation cancels it.
pub open spec fn spec_lambertian_direction(normal: Vec3, s: Vec3) -> Vec3 {
    let perturbed = spec_add(normal, spec_unit(s));
    if spec_near_zero(perturbed) {
        normal
    } else {
        perturbed
    }
}

/// A diffuse surface that always scatters, attenuating by its albedo.
#[derive(Clone, Copy, Debug)]
pub struct Lambertian {
    pub albedo: Color,
}

impl Lambertian {
    pub fn new(albedo: Color) -> (r: Self)
        requires
            color_in_unit(albedo),
        ensures
            r.albedo == albedo,
    {
        Self { albedo }
    }

    /// Scatter toward the normal perturbed by a random unit vector; when
    /// the perturbation cancels the normal, fall back to the bare normal so
    /// the outgoing ray never degenerates.  The attenuation is the albedo,
    /// unconditionally, and the outgoing ray starts at the hit point.
    pub fn scatter(&self, _ray_in: &Ray, rec: &HitRecord, rng: &mut Rng) -> (r: Option<
        ScatterRecord,
    >)
        requires
            rec.normal.wf(),
        ensures
            r matches Some(sr) && sr.attenuation == self.albedo && sr.scattered.origin
                == rec.point && sr.scattered.direction.wf() && exists|s: Vec3|
                in_unit_sphere(s) && len_sq_raw(s) >= UNIT_SAMPLE_MIN_SQ && sr.scattered.direction
                    == #[trigger] spec_lambertian_direction(rec.normal, s),
    {
        let ruv = Vec3::random_unit_vector(rng);
        let perturbed = rec.normal.add(&ruv);
        let scatter_direction = if perturbed.near_zero() {
            rec.normal
        } else {
            perturbed
        };
        proof {
            let s = choose|s: Vec3|
                in_unit_sphere(s) && len_sq_raw(s) >= UNIT_SAMPLE_MIN_SQ && ruv
                    == #[trigger] spec_unit(s);
            assert(scatter_direction == spec_lambertian_direction(rec.normal, s));
        }
        Some(
            ScatterRecord {
                scattered: Ray::new(rec.point, scatter_direction),
                attenuation: self.albedo,
            },
        )
    }
}

} // verus!
