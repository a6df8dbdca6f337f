//! Refraction through a transparent medium, with probabilistic Fresnel
//! reflection by the Schlick approximation.

use crate::common::fx::{
    lemma_sqrt_floor_unique, mul_fx, spec_div_fx, spec_mul_fx, spec_sqrt_fx, sqrt_fx, SCALE,
};
use crate::common::random::{unit, Rng};
use crate::common::ray::Ray;
use crate::common::vec3::{
    axis_unit, lemma_refract_identity_normal_incidence, spec_dot, spec_neg, spec_reflect,
    spec_refract, spec_unit, v3, Color, Vec3,
};
use crate::hittable::HitRecord;
use crate::material::ScatterRecord;
use vstd::arithmetic::div_mod::lemma_div_multiples_vanish;
use vstd::prelude::*;

verus! {

/// A transparent, refractive material with a positive refraction index.
#[derive(Clone, Copy, Debug)]
pub struct Dielectric {
    pub refraction_index: i64,
}

/// The quotient of refraction indices along the ray: the reciprocal index
/// when entering from outside, the index itself when exiting.
pub open spec fn spec_refraction_ratio(d: Dielectric, front_face: bool) -> int {
    if front_face {
        spec_div_fx(SCALE as int, d.refraction_index as int)
    } else {
        d.refraction_index as int
    }
}

/// The cosine of the incidence angle, capped at one.
pub open spec fn spec_cos_theta(u: Vec3, n: Vec3) -> int {
    if spec_dot(spec_neg(u), n) < SCALE as int {
        spec_dot(spec_neg(u), n)
    } else {
        SCALE as int
    }
}

/// Snell's law admits no refracted direction when
/// `ratio * sin(theta) > 1`: total internal reflection.
pub open spec fn spec_cannot_refract(u: Vec3, n: Vec3, ratio: int) -> bool {
    let cos = spec_cos_theta(u, n);
    let sin = spec_sqrt_fx(SCALE - spec_mul_fx(cos, cos));
    spec_mul_fx(ratio, sin) > SCALE as int
}

/// The Schlick reflectance at a hit: evaluated at the capped incidence
/// cosine, raised to zero from below (a grazing cosine below zero
/// saturates the reflectance and always reflects).
pub open spec fn spec_schlick_at(u: Vec3, n: Vec3, ratio: int) -> int {
    let cos = spec_cos_theta(u, n);
    let cs = if cos < 0 {
        0
    } else {
        cos
    };
    spec_schlick(cs, ratio)
}

/// The Schlick reflectance estimate, `r0 + (1 - r0) (1 - cos)^5` with
/// `r0 = ((1 - idx) / (1 + idx))^2`, in fixed-point steps.
pub open spec fn spec_schlick(cos: int, ref_idx: int) -> int {
    let r0 = spec_div_fx(SCALE - ref_idx, SCALE + ref_idx);
    let r0sq = spec_mul_fx(r0, r0);
    let p = SCALE - cos;
    let p2 = spec_mul_fx(p, p);
    let p4 = spec_mul_fx(p2, p2);
    let p5 = spec_mul_fx(p4, p);
    r0sq + spec_mul_fx(SCALE - r0sq, p5)
}

impl Dielectric {
    pub fn new(refraction_index: i64) -> (r: Self)
        requires
            1 <= refraction_index <= crate::common::fx::FX_MAX,
        ensures
            r.refraction_index == refraction_index,
    {
        Self { refraction_index }
    }

    /// The Schlick closed-form estimate of Fresnel reflectance:
    /// `r0 + (1 - r0) (1 - cos)^5` with `r0 = ((1 - idx) / (1 + idx))^2`.
    fn reflectance(&self, cos: i64, ref_idx: i64) -> (r: i64)
        requires
            0 <= cos <= SCALE,
            crate::common::fx::fx_ok(ref_idx as int),
        ensures
            r == spec_schlick(cos as int, ref_idx as int),
    {
        let r0 = crate::common::fx::div_fx(SCALE - ref_idx, SCALE + ref_idx);
        let r0 = mul_fx(r0, r0);
        let p = SCALE - cos;
        let p2 = mul_fx(p, p);
        let p4 = mul_fx(p2, p2);
        let p5 = mul_fx(p4, p);
        let rest = mul_fx(SCALE - r0, p5);
        r0 + rest
    }

    /// Dielectric scatter never absorbs: the attenuation is white, the
    /// outgoing ray starts at the hit point, and its direction is either
    /// the mirror reflection or the Snell refraction of the unit incoming
    /// direction.  The reflection is forced under total internal reflection
    /// and whenever the Schlick reflectance saturates at one; the
    /// refraction is forced whenever refraction is possible and the
    /// reflectance is zero (as at an index ratio of one); in between, a
    /// uniform draw against the reflectance decides.
    pub fn scatter(&self, ray_in: &Ray, rec: &HitRecord, rng: &mut Rng) -> (r: Option<
        ScatterRecord,
    >)
        requires
            ray_in.direction.wf(),
            rec.normal.wf(),
            1 <= self.refraction_index <= crate::common::fx::FX_MAX,
        ensures
            r matches Some(sr) && sr.attenuation == v3(SCALE as int, SCALE as int, SCALE as int)
                && sr.scattered.origin == rec.point && sr.scattered.direction.wf() && {
                let ratio = spec_refraction_ratio(*self, rec.front_face);
                let u = spec_unit(ray_in.direction);
                &&& (sr.scattered.direction == spec_reflect(u, rec.normal)
                    || sr.scattered.direction == spec_refract(u, rec.normal, ratio))
                &&& spec_cannot_refract(u, rec.normal, ratio) ==> sr.scattered.direction
                    == spec_reflect(u, rec.normal)
                &&& !spec_cannot_refract(u, rec.normal, ratio) && spec_schlick_at(
                    u,
                    rec.normal,
                    ratio,
                ) <= 0 ==> sr.scattered.direction == spec_refract(u, rec.normal, ratio)
                &&& spec_schlick_at(u, rec.normal, ratio) >= SCALE as int
                    ==> sr.scattered.direction == spec_reflect(u, rec.normal)
            },
    {
        let attenuation = Color::white();
        let refraction_ratio = if rec.front_face {
            crate::common::fx::div_fx(SCALE, self.refraction_index)
        } else {
            self.refraction_index
        };
        let unit_direction = ray_in.direction.unit_vec();
        let d = unit_direction.neg().dot(&rec.normal);
        let cos_theta = if d < SCALE {
            d
        } else {
            SCALE
        };
        let cos_sq = mul_fx(cos_theta, cos_theta);
        let sin_theta = sqrt_fx(SCALE - cos_sq);
        let cannot_refract = mul_fx(refraction_ratio, sin_theta) > SCALE;
        let reflect_anyway = if cannot_refract {
            true
        } else {
            // a grazing cosine below zero saturates the reflectance at one,
            // which outdraws every uniform sample: always reflect
            let cos_for_schlick = if cos_theta < 0 {
                0
            } else {
                cos_theta
            };
            self.reflectance(cos_for_schlick, refraction_ratio) > unit(rng)
        };
        let direction = if reflect_anyway {
            unit_direction.reflect(&rec.normal)
        } else {
            unit_direction.refract(&rec.normal, refraction_ratio)
        };
        Some(ScatterRecord { scattered: Ray::new(rec.point, direction), attenuation })
    }
}

/// The identity case of refraction: at normal incidence against an
/// axis-aligned unit normal with an index ratio of one, refraction is
/// possible, the Schlick reflectance is zero — so the scatter contract
/// forces the refracted branch for every uniform draw — and the refracted
/// direction is the incoming unit direction unchanged.
pub proof fn lemma_dielectric_identity_case(n: Vec3)
    requires
        axis_unit(n),
    ensures
        !spec_cannot_refract(spec_neg(n), n, SCALE as int),
        spec_schlick_at(spec_neg(n), n, SCALE as int) <= 0,
        spec_refract(spec_neg(n), n, SCALE as int) == spec_neg(n),
{
    let s = SCALE as int;
    let u = spec_neg(n);
    assert(spec_neg(u) == n);
    assert(spec_dot(n, n) == s) by {
        assert(n.0 * n.0 + n.1 * n.1 + n.2 * n.2 == s * s) by (nonlinear_arith)
            requires
                s == 1_000_000 && ((n.0 == s || n.0 == -s) && n.1 == 0 && n.2 == 0 || n.0 == 0 && (
                n.1 == s || n.1 == -s) && n.2 == 0 || n.0 == 0 && n.1 == 0 && (n.2 == s || n.2
                    == -s)),
        ;
        lemma_div_multiples_vanish(s, s);
    };
    assert(spec_cos_theta(u, n) == s);
    assert(0int * 0int == 0 && s * 0 == 0 && 0 * s == 0) by (nonlinear_arith);
    assert(0int / s == 0 && 0int / (s + s) == 0) by {
        lemma_div_multiples_vanish(0, s);
        lemma_div_multiples_vanish(0, s + s);
        assert(s * 0 == 0 && (s + s) * 0 == 0) by (nonlinear_arith);
    };
    assert(spec_mul_fx(s, s) == s) by {
        lemma_div_multiples_vanish(s, s);
    };
    assert(spec_sqrt_fx(0) == 0) by {
        assert(crate::common::fx::is_sqrt_floor(0, 0)) by (nonlinear_arith);
        lemma_sqrt_floor_unique(0, 0);
    };
    assert(spec_mul_fx(s, 0) == 0);
    assert(!spec_cannot_refract(u, n, s));
    assert(spec_schlick_at(u, n, s) <= 0) by {
        assert(spec_div_fx(s - s, s + s) == 0);
        assert(spec_mul_fx(0, 0) == 0);
        assert(spec_mul_fx(s - 0, 0) == 0);
        assert(spec_schlick(s, s) == 0);
    };
    lemma_refract_identity_normal_incidence(n);
}

} // verus!
