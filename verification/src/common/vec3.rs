//! Three-component fixed-point vectors, used as points, directions and colors.
//!
//! Every operation is total: intermediate products are taken in `i128`,
//! divisions floor, and each resulting component saturates into
//! `[-FX_MAX, FX_MAX]` (see [`crate::common::fx`]).  Each executable
//! operation returns exactly the value of its specification function.

use crate::common::fx::{
    clamp_fx, div_floor, div_trunc, fx_ok, is_sqrt_floor, spec_clamp, spec_div_trunc,
    spec_sqrt_fx, sqrt_floor, sqrt_u128, FX_MAX, SCALE,
};
use crate::common::random::{range, Rng};
use vstd::arithmetic::div_mod::{lemma_div_is_ordered, lemma_div_multiples_vanish};
use vstd::prelude::*;

verus! {

/// A vector of three fixed-point scalars.
#[derive(Clone, Copy, Debug, PartialEq, Eq, Structural)]
pub struct Vec3(pub i64, pub i64, pub i64);

/// A vector read as a color (channels in `[0, SCALE]` before gamma mapping).
pub type Color = Vec3;

/// A vector read as a position.
pub type Point = Vec3;

/// Build a vector from mathematical integers known to fit in `i64`.
pub open spec fn v3(x: int, y: int, z: int) -> Vec3 {
    Vec3(x as i64, y as i64, z as i64)
}

/// Component-wise saturation of unbounded components.
pub open spec fn v3_clamp(x: int, y: int, z: int) -> Vec3 {
    v3(spec_clamp(x), spec_clamp(y), spec_clamp(z))
}

pub open spec fn spec_add(a: Vec3, b: Vec3) -> Vec3 {
    v3_clamp(a.0 + b.0, a.1 + b.1, a.2 + b.2)
}

pub open spec fn spec_sub(a: Vec3, b: Vec3) -> Vec3 {
    v3_clamp(a.0 - b.0, a.1 - b.1, a.2 - b.2)
}

pub open spec fn spec_neg(a: Vec3) -> Vec3 {
    v3_clamp(-a.0, -a.1, -a.2)
}

/// Scaling by a fixed-point scalar.
pub open spec fn spec_scale(a: Vec3, s: int) -> Vec3 {
    v3_clamp(
        (a.0 * s) / (SCALE as int),
        (a.1 * s) / (SCALE as int),
        (a.2 * s) / (SCALE as int),
    )
}

/// Component-wise (Hadamard) product, as used for color attenuation.
pub open spec fn spec_mul(a: Vec3, b: Vec3) -> Vec3 {
    v3_clamp(
        (a.0 * b.0) / (SCALE as int),
        (a.1 * b.1) / (SCALE as int),
        (a.2 * b.2) / (SCALE as int),
    )
}

/// The raw (twice-scaled) sum of squares of the components.
pub open spec fn len_sq_raw(a: Vec3) -> int {
    a.0 * a.0 + a.1 * a.1 + a.2 * a.2
}

/// The raw (twice-scaled) dot product, before rescaling: exact, so its
/// sign carries no rounding error.
pub open spec fn dot_raw(a: Vec3, b: Vec3) -> int {
    a.0 * b.0 + a.1 * b.1 + a.2 * b.2
}

pub open spec fn spec_dot(a: Vec3, b: Vec3) -> int {
    spec_clamp((a.0 * b.0 + a.1 * b.1 + a.2 * b.2) / (SCALE as int))
}

/// The cross product rescales with round-toward-zero division: truncation
/// commutes with negation, so the antisymmetry `a x b == -(b x a)` stays
/// exact (flooring would shift one side by a quantum).
pub open spec fn spec_cross(a: Vec3, b: Vec3) -> Vec3 {
    v3_clamp(
        spec_div_trunc(a.1 * b.2 - a.2 * b.1, SCALE as int),
        spec_div_trunc(a.2 * b.0 - a.0 * b.2, SCALE as int),
        spec_div_trunc(a.0 * b.1 - a.1 * b.0, SCALE as int),
    )
}

pub open spec fn spec_length(a: Vec3) -> int {
    spec_clamp(sqrt_floor(len_sq_raw(a)))
}

/// The unit vector: each component is `c * SCALE / length`, floored.
/// A zero-length vector has no direction; the result is then the zero
/// vector, the role a silent NaN plays in floating-point renderers.
pub open spec fn spec_unit(a: Vec3) -> Vec3 {
    if spec_length(a) == 0 {
        v3(0, 0, 0)
    } else {
        v3_clamp(
            (a.0 * (SCALE as int)) / spec_length(a),
            (a.1 * (SCALE as int)) / spec_length(a),
            (a.2 * (SCALE as int)) / spec_length(a),
        )
    }
}

/// Mirror reflection: `v - 2 (v . n) n`.
pub open spec fn spec_reflect(v: Vec3, n: Vec3) -> Vec3 {
    spec_sub(v, spec_scale(n, 2 * spec_dot(v, n)))
}

/// Snell refraction of the unit direction `uv` at a surface with unit
/// normal `n`, with `ratio` the quotient of refraction indices.  The
/// parallel component takes `1 - |perp|^2` clamped to at least zero before
/// the square root, so the root stays in domain under total internal
/// reflection (which the caller must detect upstream).
pub open spec fn spec_refract(uv: Vec3, n: Vec3, ratio: int) -> Vec3 {
    let cos_theta = if spec_dot(spec_neg(uv), n) < SCALE as int {
        spec_dot(spec_neg(uv), n)
    } else {
        SCALE as int
    };
    let perp = spec_scale(spec_add(uv, spec_scale(n, cos_theta)), ratio);
    let k = spec_clamp(SCALE - spec_dot(perp, perp));
    let f = spec_sqrt_fx(k);
    spec_add(perp, spec_scale(n, -f))
}

pub open spec fn spec_near_zero(a: Vec3) -> bool {
    a.0 == 0 && a.1 == 0 && a.2 == 0
}

/// The least raw squared length a sample may have before normalization: a
/// hundredth of a unit.  Below it the quantized division would keep almost
/// none of the direction.
pub const UNIT_SAMPLE_MIN_SQ: i64 = 100_000_000;

/// A color with every channel inside `[0, 1]`.
pub open spec fn color_in_unit(c: Vec3) -> bool {
    0 <= c.0 <= SCALE && 0 <= c.1 <= SCALE && 0 <= c.2 <= SCALE
}

/// Strictly inside the ball of unit radius around the origin.
pub open spec fn in_unit_sphere(a: Vec3) -> bool {
    len_sq_raw(a) < (SCALE as int) * (SCALE as int)
}

/// Strictly inside the disk of unit radius in the z = 0 plane.
pub open spec fn in_unit_disk(a: Vec3) -> bool {
    a.2 == 0 && a.0 * a.0 + a.1 * a.1 < (SCALE as int) * (SCALE as int)
}

impl Vec3 {
    /// All components inside the saturation range.
    pub open spec fn wf(self) -> bool {
        fx_ok(self.0 as int) && fx_ok(self.1 as int) && fx_ok(self.2 as int)
    }

    pub fn black() -> (r: Self)
        ensures
            r == v3(0, 0, 0),
            r.wf(),
    {
        Vec3(0, 0, 0)
    }

    pub fn white() -> (r: Self)
        ensures
            r == v3(SCALE as int, SCALE as int, SCALE as int),
            r.wf(),
    {
        Vec3(SCALE, SCALE, SCALE)
    }

    pub fn new(x: i64, y: i64, z: i64) -> (r: Self)
        ensures
            r == v3_clamp(x as int, y as int, z as int),
            r.wf(),
    {
        Vec3(clamp_fx(x as i128), clamp_fx(y as i128), clamp_fx(z as i128))
    }

    pub fn x(&self) -> (r: i64)
        ensures
            r == self.0,
    {
        self.0
    }

    pub fn y(&self) -> (r: i64)
        ensures
            r == self.1,
    {
        self.1
    }

    pub fn z(&self) -> (r: i64)
        ensures
            r == self.2,
    {
        self.2
    }

    pub fn add(&self, other: &Self) -> (r: Self)
        ensures
            r == spec_add(*self, *other),
            r.wf(),
    {
        Vec3(
            clamp_fx(self.0 as i128 + other.0 as i128),
            clamp_fx(self.1 as i128 + other.1 as i128),
            clamp_fx(self.2 as i128 + other.2 as i128),
        )
    }

    pub fn sub(&self, other: &Self) -> (r: Self)
        ensures
            r == spec_sub(*self, *other),
            r.wf(),
    {
        Vec3(
            clamp_fx(self.0 as i128 - other.0 as i128),
            clamp_fx(self.1 as i128 - other.1 as i128),
            clamp_fx(self.2 as i128 - other.2 as i128),
        )
    }

    pub fn neg(&self) -> (r: Self)
        ensures
            r == spec_neg(*self),
            r.wf(),
    {
        Vec3(
            clamp_fx(-(self.0 as i128)),
            clamp_fx(-(self.1 as i128)),
            clamp_fx(-(self.2 as i128)),
        )
    }

    pub fn scale(&self, s: i64) -> (r: Self)
        ensures
            r == spec_scale(*self, s as int),
            r.wf(),
    {
        proof {
            lemma_i64_product_fits(self.0 as int, s as int);
            lemma_i64_product_fits(self.1 as int, s as int);
            lemma_i64_product_fits(self.2 as int, s as int);
        }
        Vec3(
            clamp_fx(div_floor(self.0 as i128 * s as i128, SCALE as i128)),
            clamp_fx(div_floor(self.1 as i128 * s as i128, SCALE as i128)),
            clamp_fx(div_floor(self.2 as i128 * s as i128, SCALE as i128)),
        )
    }

    pub fn mul(&self, other: &Self) -> (r: Self)
        ensures
            r == spec_mul(*self, *other),
            r.wf(),
    {
        proof {
            lemma_i64_product_fits(self.0 as int, other.0 as int);
            lemma_i64_product_fits(self.1 as int, other.1 as int);
            lemma_i64_product_fits(self.2 as int, other.2 as int);
        }
        Vec3(
            clamp_fx(div_floor(self.0 as i128 * other.0 as i128, SCALE as i128)),
            clamp_fx(div_floor(self.1 as i128 * other.1 as i128, SCALE as i128)),
            clamp_fx(div_floor(self.2 as i128 * other.2 as i128, SCALE as i128)),
        )
    }

    pub fn dot(&self, other: &Self) -> (r: i64)
        requires
            self.wf(),
            other.wf(),
        ensures
            r == spec_dot(*self, *other),
            fx_ok(r as int),
    {
        proof {
            lemma_wf_products_fit(*self, *other);
        }
        let s = self.0 as i128 * other.0 as i128 + self.1 as i128 * other.1 as i128
            + self.2 as i128 * other.2 as i128;
        clamp_fx(div_floor(s, SCALE as i128))
    }

    pub fn cross(&self, other: &Self) -> (r: Self)
        requires
            self.wf(),
            other.wf(),
        ensures
            r == spec_cross(*self, *other),
            r.wf(),
    {
        proof {
            lemma_wf_products_fit(*self, *other);
            lemma_wf_products_fit(*other, *self);
        }
        Vec3(
            clamp_fx(
                div_trunc(
                    self.1 as i128 * other.2 as i128 - self.2 as i128 * other.1 as i128,
                    SCALE as i128,
                ),
            ),
            clamp_fx(
                div_trunc(
                    self.2 as i128 * other.0 as i128 - self.0 as i128 * other.2 as i128,
                    SCALE as i128,
                ),
            ),
            clamp_fx(
                div_trunc(
                    self.0 as i128 * other.1 as i128 - self.1 as i128 * other.0 as i128,
                    SCALE as i128,
                ),
            ),
        )
    }

    pub fn length_squared(&self) -> (r: i64)
        requires
            self.wf(),
        ensures
            r == spec_dot(*self, *self),
            fx_ok(r as int),
            r >= 0,
    {
        let r = self.dot(self);
        proof {
            lemma_len_sq_raw_nonneg(*self);
            vstd::arithmetic::div_mod::lemma_div_pos_is_pos(len_sq_raw(*self), SCALE as int);
        }
        r
    }

    pub fn length(&self) -> (r: i64)
        requires
            self.wf(),
        ensures
            r == spec_length(*self),
            0 <= r <= FX_MAX,
            r >= self.0 && r >= -self.0 && r >= self.1 && r >= -self.1 && r >= self.2 && r
                >= -self.2 || r == FX_MAX,
    {
        proof {
            lemma_wf_products_fit(*self, *self);
            lemma_len_sq_raw_nonneg(*self);
        }
        let s = self.0 as i128 * self.0 as i128 + self.1 as i128 * self.1 as i128
            + self.2 as i128 * self.2 as i128;
        proof {
            assert(s as int == len_sq_raw(*self));
            assert(0 <= s as int <= 3_000_000_000_000_000_000_000_000_000_000_000_000int);
        }
        let root = sqrt_u128(s as u128);
        proof {
            assert(s as u128 as int == s as int);
            assert(root as int <= 2_000_000_000_000_000_000int) by (nonlinear_arith)
                requires
                    is_sqrt_floor(s as u128 as int, root as int) && s as u128 as int
                        <= 3_000_000_000_000_000_000_000_000_000_000_000_000int,
            ;
            lemma_sqrt_dominates_components(*self, root as int);
        }
        let r = clamp_fx(root as i128);
        r
    }

    pub fn unit_vec(&self) -> (r: Self)
        requires
            self.wf(),
        ensures
            r == spec_unit(*self),
            r.wf(),
            -(SCALE as int) <= r.0 <= SCALE as int,
            -(SCALE as int) <= r.1 <= SCALE as int,
            -(SCALE as int) <= r.2 <= SCALE as int,
    {
        let len = self.length();
        if len == 0 {
            Vec3(0, 0, 0)
        } else {
            proof {
                lemma_i64_product_fits(self.0 as int, SCALE as int);
                lemma_i64_product_fits(self.1 as int, SCALE as int);
                lemma_i64_product_fits(self.2 as int, SCALE as int);
                lemma_unit_component_bounded(self.0 as int, len as int);
                lemma_unit_component_bounded(self.1 as int, len as int);
                lemma_unit_component_bounded(self.2 as int, len as int);
            }
            Vec3(
                clamp_fx(div_floor(self.0 as i128 * SCALE as i128, len as i128)),
                clamp_fx(div_floor(self.1 as i128 * SCALE as i128, len as i128)),
                clamp_fx(div_floor(self.2 as i128 * SCALE as i128, len as i128)),
            )
        }
    }

    pub fn reflect(&self, other: &Self) -> (r: Self)
        requires
            self.wf(),
            other.wf(),
        ensures
            r == spec_reflect(*self, *other),
            r.wf(),
    {
        let d = self.dot(other);
        let twice = other.scale(2 * d);
        self.sub(&twice)
    }

    pub fn refract(&self, normal: &Self, etai_over_etat: i64) -> (r: Self)
        requires
            self.wf(),
            normal.wf(),
        ensures
            r == spec_refract(*self, *normal, etai_over_etat as int),
            r.wf(),
    {
        let minus_uv = self.neg();
        let d = minus_uv.dot(normal);
        let cos_theta = if d < SCALE {
            d
        } else {
            SCALE
        };
        let r_out_perp = self.add(&normal.scale(cos_theta)).scale(etai_over_etat);
        let ls = r_out_perp.dot(&r_out_perp);
        let k = clamp_fx(SCALE as i128 - ls as i128);
        let f = crate::common::fx::sqrt_fx(k);
        r_out_perp.add(&normal.scale(-f))
    }

    /// True iff every component's magnitude is below the degeneracy
    /// threshold; a threshold of 1e-8 units lies below one
    /// quantum, so here it is the exact zero test.
    pub fn near_zero(&self) -> (r: bool)
        ensures
            r == spec_near_zero(*self),
    {
        self.0 == 0 && self.1 == 0 && self.2 == 0
    }

    /// A vector whose components are uniform samples of `[0, 1)`.
    pub fn random_unit(rng: &mut Rng) -> (r: Self)
        ensures
            0 <= r.0 < SCALE && 0 <= r.1 < SCALE && 0 <= r.2 < SCALE,
            r.wf(),
    {
        Self::random(rng, 0, SCALE)
    }

    /// A vector whose components are uniform samples of `[lower, upper)`.
    pub fn random(rng: &mut Rng, lower: i64, upper: i64) -> (r: Self)
        requires
            lower < upper,
        ensures
            lower <= r.0 < upper && lower <= r.1 < upper && lower <= r.2 < upper,
    {
        Vec3(range(rng, lower, upper), range(rng, lower, upper), range(rng, lower, upper))
    }

    /// Rejection-samples the unit cube until the point lies strictly inside
    /// the unit ball.  The attempt budget is generous (each attempt accepts
    /// with probability about one half); if it is ever exhausted, the origin
    /// — which lies in the ball — is returned.
    pub fn random_in_unit_sphere(rng: &mut Rng) -> (r: Self)
        ensures
            in_unit_sphere(r),
            r.wf(),
    {
        let mut k: u32 = 0;
        while k < 64
            invariant
                k <= 64,
            decreases 64 - k,
        {
            let p = Self::random(rng, -SCALE, SCALE);
            proof {
                lemma_small_squares(p.0 as int, p.1 as int, p.2 as int);
            }
            let ls = p.0 as i128 * p.0 as i128 + p.1 as i128 * p.1 as i128 + p.2 as i128 * p.2
                as i128;
            if ls < SCALE as i128 * SCALE as i128 {
                proof {
                    lemma_in_sphere_wf(p);
                }
                return p;
            }
            k = k + 1;
        }
        proof {
            lemma_small_squares(0, 0, 0);
        }
        Vec3(0, 0, 0)
    }

    /// A unit-ball sample normalized to within rounding of the unit
    /// length.  Samples closer to the center than a hundredth of a unit
    /// are rejected: there the quantized normalization would lose all
    /// precision.  After the attempt budget a fixed half-unit sample is
    /// normalized instead.
    pub fn random_unit_vector(rng: &mut Rng) -> (r: Self)
        ensures
            exists|s: Vec3|
                in_unit_sphere(s) && len_sq_raw(s) >= UNIT_SAMPLE_MIN_SQ && r
                    == #[trigger] spec_unit(s),
            -(SCALE as int) <= r.0 <= SCALE as int,
            -(SCALE as int) <= r.1 <= SCALE as int,
            -(SCALE as int) <= r.2 <= SCALE as int,
            r.wf(),
    {
        let mut k: u32 = 0;
        while k < 64
            invariant
                k <= 64,
            decreases 64 - k,
        {
            let p = Self::random(rng, -SCALE, SCALE);
            proof {
                lemma_small_squares(p.0 as int, p.1 as int, p.2 as int);
            }
            let ls = p.0 as i128 * p.0 as i128 + p.1 as i128 * p.1 as i128 + p.2 as i128 * p.2
                as i128;
            if UNIT_SAMPLE_MIN_SQ as i128 <= ls && ls < SCALE as i128 * SCALE as i128 {
                proof {
                    lemma_in_sphere_wf(p);
                }
                let u = p.unit_vec();
                proof {
                    assert(in_unit_sphere(p) && len_sq_raw(p) >= UNIT_SAMPLE_MIN_SQ && u
                        == spec_unit(p));
                }
                return u;
            }
            k = k + 1;
        }
        let fallback = Vec3(0, 0, 500_000);
        proof {
            assert(len_sq_raw(fallback) == 250_000_000_000 && in_unit_sphere(fallback))
                by (nonlinear_arith)
                requires
                    fallback == Vec3(0i64, 0i64, 500_000i64),
            ;
        }
        let u = fallback.unit_vec();
        proof {
            assert(in_unit_sphere(fallback) && len_sq_raw(fallback) >= UNIT_SAMPLE_MIN_SQ && u
                == spec_unit(fallback));
        }
        u
    }

    /// A unit-ball sample, flipped to the side of `normal` when it points
    /// away from it.  The side is decided on the raw (unrescaled) dot
    /// product, whose sign carries no rounding error, so the result never
    /// points into the surface.
    pub fn random_in_hemisphere(rng: &mut Rng, normal: &Vec3) -> (r: Self)
        requires
            normal.wf(),
        ensures
            in_unit_sphere(r),
            r.wf(),
            dot_raw(r, *normal) >= 0,
            exists|s: Vec3|
                #[trigger] in_unit_sphere(s) && r == if dot_raw(s, *normal) > 0 {
                    s
                } else {
                    spec_neg(s)
                },
    {
        let s = Self::random_in_unit_sphere(rng);
        proof {
            lemma_in_sphere_wf(s);
            lemma_neg_in_sphere(s);
            lemma_hemisphere_products(s, *normal);
        }
        let raw = s.0 as i128 * normal.0 as i128 + s.1 as i128 * normal.1 as i128 + s.2 as i128
            * normal.2 as i128;
        if raw > 0 {
            s
        } else {
            let f = s.neg();
            proof {
                assert(in_unit_sphere(s) && f == spec_neg(s));
                assert(dot_raw(f, *normal) == -dot_raw(s, *normal)) by (nonlinear_arith)
                    requires
                        f.0 == -s.0 && f.1 == -s.1 && f.2 == -s.2,
                ;
            }
            f
        }
    }

    /// Rejection-samples the unit square in the z = 0 plane until the point
    /// lies strictly inside the unit disk; used for lens sampling.  The
    /// fallback after the attempt budget is the disk's center.
    pub fn random_in_unit_disk(rng: &mut Rng) -> (r: Self)
        ensures
            in_unit_disk(r),
            r.wf(),
    {
        let mut k: u32 = 0;
        while k < 64
            invariant
                k <= 64,
            decreases 64 - k,
        {
            let p = Vec3(range(rng, -SCALE, SCALE), range(rng, -SCALE, SCALE), 0);
            proof {
                lemma_small_squares(p.0 as int, p.1 as int, 0);
            }
            let ls = p.0 as i128 * p.0 as i128 + p.1 as i128 * p.1 as i128;
            if ls < SCALE as i128 * SCALE as i128 {
                proof {
                    lemma_small_squares(p.0 as int, p.1 as int, 0);
                }
                return p;
            }
            k = k + 1;
        }
        proof {
            lemma_small_squares(0, 0, 0);
        }
        Vec3(0, 0, 0)
    }
}

/// Scaling any vector by a zero factor gives the zero vector.
pub proof fn lemma_scale_by_zero(v: Vec3)
    ensures
        spec_scale(v, 0) == v3(0, 0, 0),
{
    assert(v.0 * 0 == 0 && v.1 * 0 == 0 && v.2 * 0 == 0) by (nonlinear_arith);
    assert(0int / (SCALE as int) == 0) by (nonlinear_arith);
}

/// Scaling the zero vector by any factor gives the zero vector.
pub proof fn lemma_scale_zero_vec(s: int)
    ensures
        spec_scale(v3(0, 0, 0), s) == v3(0, 0, 0),
{
    assert(0 * s == 0) by (nonlinear_arith);
    assert(0int / (SCALE as int) == 0) by (nonlinear_arith);
}

/// Adding the zero vector to an in-range vector changes nothing.
pub proof fn lemma_add_zero(a: Vec3)
    requires
        a.wf(),
    ensures
        spec_add(a, v3(0, 0, 0)) == a,
{
}

/// The cross product is antisymmetric, exactly, for all vectors:
/// `a x b == -(b x a)`.  The truncating rescale commutes with negation,
/// and the saturation range is symmetric.
pub proof fn lemma_cross_antisymmetric(a: Vec3, b: Vec3)
    ensures
        spec_cross(a, b) == spec_neg(spec_cross(b, a)),
{
    let s = SCALE as int;
    let x = a.1 * b.2 - a.2 * b.1;
    let y = a.2 * b.0 - a.0 * b.2;
    let z = a.0 * b.1 - a.1 * b.0;
    assert(b.1 * a.2 - b.2 * a.1 == -x && b.2 * a.0 - b.0 * a.2 == -y && b.0 * a.1 - b.1 * a.0
        == -z) by (nonlinear_arith)
        requires
            x == a.1 * b.2 - a.2 * b.1 && y == a.2 * b.0 - a.0 * b.2 && z == a.0 * b.1 - a.1
                * b.0,
    ;
    crate::common::fx::lemma_div_trunc_neg(x, s);
    crate::common::fx::lemma_div_trunc_neg(y, s);
    crate::common::fx::lemma_div_trunc_neg(z, s);
    crate::common::fx::lemma_clamp_neg(spec_div_trunc(x, s));
    crate::common::fx::lemma_clamp_neg(spec_div_trunc(y, s));
    crate::common::fx::lemma_clamp_neg(spec_div_trunc(z, s));
}

/// A unit vector along one of the coordinate axes.  At these normals the
/// fixed-point reflection is exact; at oblique normals the floored
/// divisions may shift each dot product by one quantum.
pub open spec fn axis_unit(n: Vec3) -> bool {
    ||| (n.0 == SCALE || n.0 == -SCALE) && n.1 == 0 && n.2 == 0
    ||| n.0 == 0 && (n.1 == SCALE || n.1 == -SCALE) && n.2 == 0
    ||| n.0 == 0 && n.1 == 0 && (n.2 == SCALE || n.2 == -SCALE)
}

/// Multiplying by a component that is plus or minus one unit and rescaling
/// is the identity up to sign.
proof fn lemma_mul_unit_div(x: int, e: int)
    requires
        e == SCALE as int || e == -(SCALE as int),
    ensures
        (x * e) / (SCALE as int) == if e == SCALE as int {
            x
        } else {
            -x
        },
        (e * x) / (SCALE as int) == if e == SCALE as int {
            x
        } else {
            -x
        },
{
    let s = SCALE as int;
    if e == s {
        assert(x * e == s * x && e * x == s * x) by (nonlinear_arith)
            requires
                e == s,
        ;
        lemma_div_multiples_vanish(x, s);
    } else {
        assert(x * e == s * (-x) && e * x == s * (-x)) by (nonlinear_arith)
            requires
                e == -s,
        ;
        lemma_div_multiples_vanish(-x, s);
    }
}

/// The mirror law, verified by dot-product symmetry: at an axis-aligned
/// unit normal, the reflection of a half-range vector makes the opposite
/// dot product with the normal — the angle of incidence equals the angle
/// of reflection.
pub proof fn lemma_reflect_mirror_axis(v: Vec3, n: Vec3)
    requires
        axis_unit(n),
        -(FX_MAX as int) / 2 <= v.0 <= (FX_MAX as int) / 2,
        -(FX_MAX as int) / 2 <= v.1 <= (FX_MAX as int) / 2,
        -(FX_MAX as int) / 2 <= v.2 <= (FX_MAX as int) / 2,
    ensures
        spec_dot(spec_reflect(v, n), n) == -spec_dot(v, n),
{
    let s = SCALE as int;
    if n.1 == s || n.1 == -s {
        let d = spec_dot(v, n);
        lemma_mul_unit_div(v.1 as int, n.1 as int);
        lemma_mul_unit_div(2 * d, n.1 as int);
        assert(v.0 * n.0 == 0 && v.2 * n.2 == 0 && n.0 * (2 * d) == 0 && n.2 * (2 * d) == 0)
            by (nonlinear_arith)
            requires
                n.0 == 0 && n.2 == 0,
        ;
        assert(0int / s == 0) by (nonlinear_arith)
            requires
                s == 1_000_000,
        ;
        let r = spec_reflect(v, n);
        assert(r.0 == v.0 && r.2 == v.2 && r.1 == -v.1);
        lemma_mul_unit_div(r.1 as int, n.1 as int);
        assert(r.0 * n.0 == 0 && r.2 * n.2 == 0) by (nonlinear_arith)
            requires
                n.0 == 0 && n.2 == 0,
        ;
    } else if n.0 == s || n.0 == -s {
        let d = spec_dot(v, n);
        lemma_mul_unit_div(v.0 as int, n.0 as int);
        lemma_mul_unit_div(2 * d, n.0 as int);
        assert(v.1 * n.1 == 0 && v.2 * n.2 == 0 && n.1 * (2 * d) == 0 && n.2 * (2 * d) == 0)
            by (nonlinear_arith)
            requires
                n.1 == 0 && n.2 == 0,
        ;
        assert(0int / s == 0) by (nonlinear_arith)
            requires
                s == 1_000_000,
        ;
        let r = spec_reflect(v, n);
        assert(r.1 == v.1 && r.2 == v.2 && r.0 == -v.0);
        lemma_mul_unit_div(r.0 as int, n.0 as int);
        assert(r.1 * n.1 == 0 && r.2 * n.2 == 0) by (nonlinear_arith)
            requires
                n.1 == 0 && n.2 == 0,
        ;
    } else {
        let d = spec_dot(v, n);
        lemma_mul_unit_div(v.2 as int, n.2 as int);
        lemma_mul_unit_div(2 * d, n.2 as int);
        assert(v.0 * n.0 == 0 && v.1 * n.1 == 0 && n.0 * (2 * d) == 0 && n.1 * (2 * d) == 0)
            by (nonlinear_arith)
            requires
                n.0 == 0 && n.1 == 0,
        ;
        assert(0int / s == 0) by (nonlinear_arith)
            requires
                s == 1_000_000,
        ;
        let r = spec_reflect(v, n);
        assert(r.0 == v.0 && r.1 == v.1 && r.2 == -v.2);
        lemma_mul_unit_div(r.2 as int, n.2 as int);
        assert(r.0 * n.0 == 0 && r.1 * n.1 == 0) by (nonlinear_arith)
            requires
                n.0 == 0 && n.1 == 0,
        ;
    }
}

/// With an index ratio of one and at normal incidence — the incoming unit
/// direction opposite an axis-aligned unit normal — refraction returns the
/// incoming direction unchanged.
pub proof fn lemma_refract_identity_normal_incidence(n: Vec3)
    requires
        axis_unit(n),
    ensures
        spec_refract(spec_neg(n), n, SCALE as int) == spec_neg(n),
{
    let s = SCALE as int;
    let u = spec_neg(n);
    assert(spec_dot(spec_neg(u), n) == s) by {
        assert(n.0 * n.0 + n.1 * n.1 + n.2 * n.2 == s * s) by (nonlinear_arith)
            requires
                s == 1_000_000 && ((n.0 == s || n.0 == -s) && n.1 == 0 && n.2 == 0 || n.0 == 0 && (
                n.1 == s || n.1 == -s) && n.2 == 0 || n.0 == 0 && n.1 == 0 && (n.2 == s || n.2
                    == -s)),
        ;
        lemma_div_multiples_vanish(s, s);
    };
    let cos_theta = s;
    assert(spec_scale(n, cos_theta) == n) by {
        lemma_mul_unit_div(n.0 as int, s);
        lemma_mul_unit_div(n.1 as int, s);
        lemma_mul_unit_div(n.2 as int, s);
        assert(n.0 * s == s * n.0 && n.1 * s == s * n.1 && n.2 * s == s * n.2)
            by (nonlinear_arith);
        lemma_div_multiples_vanish(n.0 as int, s);
        lemma_div_multiples_vanish(n.1 as int, s);
        lemma_div_multiples_vanish(n.2 as int, s);
    };
    assert(spec_add(u, n) == v3(0, 0, 0));
    lemma_scale_zero_vec(s);
    let perp = spec_scale(spec_add(u, spec_scale(n, cos_theta)), s);
    assert(perp == v3(0, 0, 0));
    assert(spec_dot(perp, perp) == 0) by {
        assert(perp.0 * perp.0 == 0 && perp.1 * perp.1 == 0 && perp.2 * perp.2 == 0)
            by (nonlinear_arith)
            requires
                perp.0 == 0 && perp.1 == 0 && perp.2 == 0,
        ;
        assert(0int / s == 0) by (nonlinear_arith)
            requires
                s == 1_000_000,
        ;
    };
    assert(spec_clamp(s - 0) == s);
    assert(sqrt_floor(s * s) == s) by {
        assert(is_sqrt_floor(s * s, s)) by (nonlinear_arith)
            requires
                s == 1_000_000,
        ;
        crate::common::fx::lemma_sqrt_floor_unique(s * s, s);
    };
    assert(spec_scale(n, -s) == u) by {
        assert(n.0 * -s == s * (-n.0) && n.1 * -s == s * (-n.1) && n.2 * -s == s * (-n.2))
            by (nonlinear_arith);
        lemma_div_multiples_vanish(-n.0 as int, s);
        lemma_div_multiples_vanish(-n.1 as int, s);
        lemma_div_multiples_vanish(-n.2 as int, s);
    };
    assert(spec_add(perp, u) == u);
}

/// Squares of values below `SCALE` in magnitude stay below `SCALE * SCALE`
/// and are nonnegative.
proof fn lemma_small_squares(x: int, y: int, z: int)
    requires
        -(SCALE as int) <= x <= SCALE as int,
        -(SCALE as int) <= y <= SCALE as int,
        -(SCALE as int) <= z <= SCALE as int,
    ensures
        0 <= x * x <= (SCALE as int) * (SCALE as int),
        0 <= y * y <= (SCALE as int) * (SCALE as int),
        0 <= z * z <= (SCALE as int) * (SCALE as int),
        (SCALE as int) * (SCALE as int) == 1_000_000_000_000,
{
    let s = SCALE as int;
    assert(0 <= x * x <= s * s && 0 <= y * y <= s * s && 0 <= z * z <= s * s && s * s
        == 1_000_000_000_000) by (nonlinear_arith)
        requires
            -s <= x <= s && -s <= y <= s && -s <= z <= s && s == 1_000_000,
    ;
}

/// A point of the unit ball has every component below one unit in
/// magnitude, hence well inside the saturation range.
proof fn lemma_in_sphere_wf(a: Vec3)
    requires
        in_unit_sphere(a),
    ensures
        a.wf(),
        -(SCALE as int) < a.0 < SCALE as int,
        -(SCALE as int) < a.1 < SCALE as int,
        -(SCALE as int) < a.2 < SCALE as int,
{
    let s = SCALE as int;
    assert(-s < a.0 < s && -s < a.1 < s && -s < a.2 < s) by (nonlinear_arith)
        requires
            a.0 * a.0 + a.1 * a.1 + a.2 * a.2 < s * s && s == 1_000_000,
    ;
}

/// The raw dot product of a unit-ball point with a well-formed normal fits
/// comfortably in `i128`.
proof fn lemma_hemisphere_products(s: Vec3, n: Vec3)
    requires
        in_unit_sphere(s),
        n.wf(),
    ensures
        -1_000_000_000_000_000_000_000_000 <= s.0 * n.0 <= 1_000_000_000_000_000_000_000_000,
        -1_000_000_000_000_000_000_000_000 <= s.1 * n.1 <= 1_000_000_000_000_000_000_000_000,
        -1_000_000_000_000_000_000_000_000 <= s.2 * n.2 <= 1_000_000_000_000_000_000_000_000,
{
    lemma_in_sphere_wf(s);
    let m = FX_MAX as int;
    assert(-1_000_000 * m <= s.0 * n.0 <= 1_000_000 * m && -1_000_000 * m <= s.1 * n.1
        <= 1_000_000 * m && -1_000_000 * m <= s.2 * n.2 <= 1_000_000 * m) by (nonlinear_arith)
        requires
            -1_000_000 <= s.0 <= 1_000_000 && -1_000_000 <= s.1 <= 1_000_000 && -1_000_000 <= s.2
                <= 1_000_000 && -m <= n.0 <= m && -m <= n.1 <= m && -m <= n.2 <= m,
    ;
}

/// Negating a unit-ball point (component-wise, without saturation) stays in
/// the unit ball.
proof fn lemma_neg_in_sphere(a: Vec3)
    requires
        in_unit_sphere(a),
    ensures
        in_unit_sphere(spec_neg(a)),
{
    lemma_in_sphere_wf(a);
    let n = spec_neg(a);
    assert(n.0 == -a.0 && n.1 == -a.1 && n.2 == -a.2);
    assert(len_sq_raw(n) == len_sq_raw(a)) by (nonlinear_arith)
        requires
            n.0 == -a.0 && n.1 == -a.1 && n.2 == -a.2,
    ;
}

/// The product of two `i64` values fits in `i128`.
proof fn lemma_i64_product_fits(a: int, b: int)
    requires
        i64::MIN <= a <= i64::MAX,
        i64::MIN <= b <= i64::MAX,
    ensures
        i128::MIN < a * b <= i128::MAX,
{
    assert(i128::MIN < a * b <= i128::MAX) by (nonlinear_arith)
        requires
            i64::MIN <= a <= i64::MAX && i64::MIN <= b <= i64::MAX,
    ;
}

/// Each pairwise product of in-range components stays within the square of
/// the saturation bound, so sums of three such products fit in `i128`.
proof fn lemma_wf_products_fit(a: Vec3, b: Vec3)
    requires
        a.wf(),
        b.wf(),
    ensures
        -(FX_MAX as int) * (FX_MAX as int) <= a.0 * b.0 <= (FX_MAX as int) * (FX_MAX as int),
        -(FX_MAX as int) * (FX_MAX as int) <= a.1 * b.1 <= (FX_MAX as int) * (FX_MAX as int),
        -(FX_MAX as int) * (FX_MAX as int) <= a.2 * b.2 <= (FX_MAX as int) * (FX_MAX as int),
        -(FX_MAX as int) * (FX_MAX as int) <= a.1 * b.2 <= (FX_MAX as int) * (FX_MAX as int),
        -(FX_MAX as int) * (FX_MAX as int) <= a.2 * b.1 <= (FX_MAX as int) * (FX_MAX as int),
        -(FX_MAX as int) * (FX_MAX as int) <= a.2 * b.0 <= (FX_MAX as int) * (FX_MAX as int),
        -(FX_MAX as int) * (FX_MAX as int) <= a.0 * b.2 <= (FX_MAX as int) * (FX_MAX as int),
        -(FX_MAX as int) * (FX_MAX as int) <= a.0 * b.1 <= (FX_MAX as int) * (FX_MAX as int),
        -(FX_MAX as int) * (FX_MAX as int) <= a.1 * b.0 <= (FX_MAX as int) * (FX_MAX as int),
        (FX_MAX as int) * (FX_MAX as int) == 1_000_000_000_000_000_000_000_000_000_000_000_000,
{
    let m = FX_MAX as int;
    assert(-m * m <= a.0 * b.0 <= m * m && -m * m <= a.1 * b.1 <= m * m && -m * m <= a.2 * b.2
        <= m * m && -m * m <= a.1 * b.2 <= m * m && -m * m <= a.2 * b.1 <= m * m && -m * m <= a.2
        * b.0 <= m * m && -m * m <= a.0 * b.2 <= m * m && -m * m <= a.0 * b.1 <= m * m && -m * m
        <= a.1 * b.0 <= m * m) by (nonlinear_arith)
        requires
            -m <= a.0 <= m && -m <= a.1 <= m && -m <= a.2 <= m && -m <= b.0 <= m && -m <= b.1 <= m
                && -m <= b.2 <= m && m == FX_MAX as int,
    ;
    assert(m * m == 1_000_000_000_000_000_000_000_000_000_000_000_000) by (nonlinear_arith)
        requires
            m == 1_000_000_000_000_000_000,
    ;
}

/// A sum of squares is nonnegative.
proof fn lemma_len_sq_raw_nonneg(a: Vec3)
    ensures
        len_sq_raw(a) >= 0,
        len_sq_raw(a) >= a.0 * a.0,
        len_sq_raw(a) >= a.1 * a.1,
        len_sq_raw(a) >= a.2 * a.2,
{
    assert(a.0 * a.0 >= 0 && a.1 * a.1 >= 0 && a.2 * a.2 >= 0) by (nonlinear_arith);
}

/// The floored square root of the raw squared length dominates the
/// magnitude of every component.
proof fn lemma_sqrt_dominates_components(a: Vec3, root: int)
    requires
        is_sqrt_floor(len_sq_raw(a), root),
    ensures
        root >= a.0 && root >= -a.0,
        root >= a.1 && root >= -a.1,
        root >= a.2 && root >= -a.2,
{
    lemma_len_sq_raw_nonneg(a);
    assert(root >= a.0 && root >= -a.0 && root >= a.1 && root >= -a.1 && root >= a.2 && root
        >= -a.2) by (nonlinear_arith)
        requires
            0 <= root && root * root <= len_sq_raw(a) && len_sq_raw(a) < (root + 1) * (root + 1)
                && len_sq_raw(a) >= a.0 * a.0 && len_sq_raw(a) >= a.1 * a.1 && len_sq_raw(a) >= a.2
                * a.2,
    ;
}

/// When the length dominates a component's magnitude, the unit-vector
/// division keeps that component within one `SCALE`.
proof fn lemma_unit_component_bounded(c: int, len: int)
    requires
        len >= 1,
        -len <= c <= len,
    ensures
        -(SCALE as int) <= (c * (SCALE as int)) / len <= SCALE as int,
{
    let s = SCALE as int;
    assert(c * s <= len * s && -(len * s) <= c * s) by (nonlinear_arith)
        requires
            -len <= c <= len && s > 0,
    ;
    lemma_div_is_ordered(c * s, len * s, len);
    lemma_div_is_ordered(-(len * s), c * s, len);
    lemma_div_multiples_vanish(s, len);
    lemma_div_multiples_vanish(-s, len);
}

} // verus!
