//! Material scattering: how a surface redirects an incoming ray.
//!
//! The material set is closed, so it is a tagged variant over the three
//! surface models; scattering dispatches over the tag.

pub mod dielectric;
pub mod lambertian;
pub mod metal;

use crate::common::fx::SCALE;
use crate::common::random::Rng;
use crate::common::ray::Ray;
use crate::common::vec3::{color_in_unit, Color};
use crate::hittable::HitRecord;
use dielectric::Dielectric;
use lambertian::Lambertian;
use metal::Metal;
use vstd::prelude::*;

verus! {

/// The outcome of one scatter event: the outgoing ray and the color
/// attenuation it carries.  Absence of a record means absorption.
#[derive(Clone, Copy, Debug)]
pub struct ScatterRecord {
    pub scattered: Ray,
    pub attenuation: Color,
}

/// A surface's scattering behavior.
#[derive(Clone, Copy, Debug)]
pub enum Material {
    Lambertian(Lambertian),
    Metal(Metal),
    Dielectric(Dielectric),
}

impl Material {
    /// The data-model invariants: albedo channels in `[0, 1]`, fuzz in
    /// `[0, 1]`, a positive refraction index.
    pub open spec fn wf(self) -> bool {
        match self {
            Material::Lambertian(l) => color_in_unit(l.albedo),
            Material::Metal(m) => color_in_unit(m.albedo) && 0 <= m.fuzz <= SCALE,
            Material::Dielectric(d) => 1 <= d.refraction_index <= crate::common::fx::FX_MAX,
        }
    }

    /// Given the incoming ray and the surface hit, optionally produce the
    /// outgoing ray and an attenuation color; `None` means the ray is
    /// absorbed.  Whatever the sampling draws, a scattered ray starts at
    /// the hit point and carries an attenuation inside the unit color box.
    pub fn scatter(&self, ray_in: &Ray, rec: &HitRecord, rng: &mut Rng) -> (r: Option<
        ScatterRecord,
    >)
        requires
            ray_in.direction.wf(),
            rec.normal.wf(),
            self.wf(),
        ensures
            r matches Some(sr) ==> sr.scattered.origin == rec.point
                && sr.scattered.direction.wf() && color_in_unit(sr.attenuation),
            self matches Material::Lambertian(l) ==> r matches Some(sr) && sr.attenuation
                == l.albedo,
            self matches Material::Metal(m) ==> (r matches Some(sr) ==> sr.attenuation
                == m.albedo),
            self matches Material::Dielectric(d) ==> r matches Some(sr) && sr.attenuation == crate::common::vec3::v3(
                SCALE as int,
                SCALE as int,
                SCALE as int,
            ),
    {
        match self {
            Material::Lambertian(l) => l.scatter(ray_in, rec, rng),
            Material::Metal(m) => m.scatter(ray_in, rec, rng),
            Material::Dielectric(d) => d.scatter(ray_in, rec, rng),
        }
    }
}

} // verus!
