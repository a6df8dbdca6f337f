//! Specular reflection with optional fuzz.

use crate::common::fx::SCALE;
use crate::common::random::Rng;
use crate::common::ray::Ray;
use crate::common::vec3::{
    color_in_unit, in_unit_sphere, spec_add, spec_dot, spec_reflect, spec_scale, spec_unit, Color,
    Vec3,
};
use crate::hittable::HitRecord;
use crate::material::ScatterRecord;
use vstd::prelude::*;

verus! {

/// A polished surface that mirrors the incoming direction, blurred by a
/// fuzz factor in `[0, 1]`.
#[derive(Clone, Copy, Debug)]
pub struct Metal {
    pub albedo: Color,
    pub fuzz: i64,
}

impl Metal {
    /// The fuzz factor is capped at one, as the data model requires.
    pub fn new(albedo: Color, fuzz: i64) -> (r: Self)
        requires
            color_in_unit(albedo),
            fuzz >= 0,
        ensures
            r.albedo == albedo,
            r.fuzz == if fuzz < SCALE {
                fuzz as int
            } else {
                SCALE as int
            },
    {
        let capped = if fuzz < SCALE {
            fuzz
        } else {
            SCALE
        };
        Self { albedo, fuzz: capped }
    }

    /// Reflect the unit incoming direction about the normal, perturb it by
    /// `fuzz` times a unit-ball sample, and absorb the ray when the
    /// perturbed direction lands on the wrong side of the surface.  For
    /// every drawn sample, the outcome is the perturbed mirror direction
    /// exactly when it clears the surface, and absorption otherwise; with
    /// zero fuzz this is deterministic.
    pub fn scatter(&self, ray_in: &Ray, rec: &HitRecord, rng: &mut Rng) -> (r: Option<
        ScatterRecord,
    >)
        requires
            ray_in.direction.wf(),
            rec.normal.wf(),
            0 <= self.fuzz <= SCALE,
        ensures
            r matches Some(sr) ==> sr.attenuation == self.albedo && sr.scattered.origin
                == rec.point && sr.scattered.direction.wf() && spec_dot(
                sr.scattered.direction,
                rec.normal,
            ) > 0,
            exists|s: Vec3|
                #[trigger] in_unit_sphere(s) && {
                    let d = spec_add(
                        spec_reflect(spec_unit(ray_in.direction), rec.normal),
                        spec_scale(s, self.fuzz as int),
                    );
                    &&& (r is Some <==> spec_dot(d, rec.normal) > 0)
                    &&& (r matches Some(sr) ==> sr.scattered.direction == d)
                },
            self.fuzz == 0 ==> {
                let refl = spec_reflect(spec_unit(ray_in.direction), rec.normal);
                if spec_dot(refl, rec.normal) > 0 {
                    r == Some(
                        (ScatterRecord {
                            scattered: (Ray { origin: rec.point, direction: refl }),
                            attenuation: self.albedo,
                        }),
                    )
                } else {
                    r is None
                }
            },
    {
        let reflected = ray_in.direction.unit_vec().reflect(&rec.normal);
        let sample = Vec3::random_in_unit_sphere(rng);
        let fuzz_vec = sample.scale(self.fuzz);
        let direction = reflected.add(&fuzz_vec);
        proof {
            if self.fuzz == 0 {
                crate::common::vec3::lemma_scale_by_zero(sample);
                crate::common::vec3::lemma_add_zero(reflected);
            }
        }
        let scattered = Ray::new(rec.point, direction);
        if scattered.direction.dot(&rec.normal) > 0 {
            let r = Some(ScatterRecord { scattered, attenuation: self.albedo });
            proof {
                assert(in_unit_sphere(sample) && direction == spec_add(
                    spec_reflect(spec_unit(ray_in.direction), rec.normal),
                    spec_scale(sample, self.fuzz as int),
                ));
            }
            r
        } else {
            proof {
                assert(in_unit_sphere(sample) && direction == spec_add(
                    spec_reflect(spec_unit(ray_in.direction), rec.normal),
                    spec_scale(sample, self.fuzz as int),
                ));
            }
            None
        }
    }
}

} // verus!
