//! The sphere primitive and its ray intersection.

use crate::common::fx::{clamp_fx, div_floor, sqrt_floor, sqrt_u128, SCALE};
use crate::common::ray::{spec_ray_at, Ray};
use crate::common::vec3::{v3_clamp, Point, Vec3};
use crate::hittable::{spec_hit_record, HitRecord};
use crate::material::Material;
use vstd::prelude::*;

verus! {

/// Coordinates, direction components and radii taking part in an
/// intersection must stay within this bound (a thousand units) so that the
/// discriminant arithmetic stays exact; geometry outside it reports no hit,
/// the role a silent NaN plays in floating-point renderers.
pub const DOMAIN_BOUND: i64 = 1_000_000_000;

/// An immutable scene sphere.
#[derive(Clone, Copy, Debug)]
pub struct Sphere {
    pub center: Point,
    pub radius: i64,
    pub material: Material,
}

pub open spec fn in_domain(v: Vec3) -> bool {
    &&& -DOMAIN_BOUND <= v.0 <= DOMAIN_BOUND
    &&& -DOMAIN_BOUND <= v.1 <= DOMAIN_BOUND
    &&& -DOMAIN_BOUND <= v.2 <= DOMAIN_BOUND
}

pub open spec fn sphere_domain_ok(s: Sphere, ray: Ray) -> bool {
    &&& in_domain(ray.origin)
    &&& in_domain(ray.direction)
    &&& in_domain(s.center)
    &&& 1 <= s.radius <= DOMAIN_BOUND
}

/// The record reported for a hit at parameter `t`: the point reached, and
/// the outward normal `(point - center) / radius` oriented against the ray.
pub open spec fn spec_sphere_record(s: Sphere, ray: Ray, t: i64) -> HitRecord {
    let point = spec_ray_at(ray, t as int);
    let outward = v3_clamp(
        ((point.0 - s.center.0) * (SCALE as int)) / (s.radius as int),
        ((point.1 - s.center.1) * (SCALE as int)) / (s.radius as int),
        ((point.2 - s.center.2) * (SCALE as int)) / (s.radius as int),
    );
    spec_hit_record(point, t, s.material, ray, outward)
}

/// Ray-sphere intersection by the half-b quadratic: with `oc` the origin
/// relative to the center, `a = |d|^2`, `h = oc . d`, `c = |oc|^2 - r^2`
/// (all unscaled integer products), the discriminant is `h^2 - a c`.  A
/// negative discriminant, a zero direction or out-of-domain geometry is a
/// miss; otherwise the smaller root is reported if it lies in
/// `[t_min, t_max]`, else the larger root if it does, else a miss — so the
/// nearest in-range root always wins.
pub open spec fn spec_sphere_hit(s: Sphere, ray: Ray, t_min: i64, t_max: i64) -> Option<
    HitRecord,
> {
    if !sphere_domain_ok(s, ray) {
        None
    } else {
        let ox = ray.origin.0 - s.center.0;
        let oy = ray.origin.1 - s.center.1;
        let oz = ray.origin.2 - s.center.2;
        let dx = ray.direction.0 as int;
        let dy = ray.direction.1 as int;
        let dz = ray.direction.2 as int;
        let a = dx * dx + dy * dy + dz * dz;
        let h = ox * dx + oy * dy + oz * dz;
        let c = ox * ox + oy * oy + oz * oz - (s.radius as int) * (s.radius as int);
        let disc = h * h - a * c;
        if a == 0 || disc < 0 {
            None
        } else {
            let sq = sqrt_floor(disc);
            let root1 = ((-h - sq) * (SCALE as int)) / a;
            if t_min <= root1 <= t_max {
                Some(spec_sphere_record(s, ray, root1 as i64))
            } else {
                let root2 = ((-h + sq) * (SCALE as int)) / a;
                if t_min <= root2 <= t_max {
                    Some(spec_sphere_record(s, ray, root2 as i64))
                } else {
                    None
                }
            }
        }
    }
}

impl Sphere {
    pub fn new(center: Point, radius: i64, material: Material) -> (r: Self)
        ensures
            r.center == center,
            r.radius == radius,
            r.material == material,
    {
        Self { center, radius, material }
    }

    /// Intersect the ray with this sphere over `[t_min, t_max]`.
    pub fn hit(&self, ray: &Ray, t_min: i64, t_max: i64) -> (r: Option<HitRecord>)
        ensures
            r == spec_sphere_hit(*self, *ray, t_min, t_max),
    {
        let o = &ray.origin;
        let d = &ray.direction;
        let cen = &self.center;
        if !(-DOMAIN_BOUND <= o.0 && o.0 <= DOMAIN_BOUND && -DOMAIN_BOUND <= o.1 && o.1
            <= DOMAIN_BOUND && -DOMAIN_BOUND <= o.2 && o.2 <= DOMAIN_BOUND && -DOMAIN_BOUND <= d.0
            && d.0 <= DOMAIN_BOUND && -DOMAIN_BOUND <= d.1 && d.1 <= DOMAIN_BOUND && -DOMAIN_BOUND
            <= d.2 && d.2 <= DOMAIN_BOUND && -DOMAIN_BOUND <= cen.0 && cen.0 <= DOMAIN_BOUND
            && -DOMAIN_BOUND <= cen.1 && cen.1 <= DOMAIN_BOUND && -DOMAIN_BOUND <= cen.2 && cen.2
            <= DOMAIN_BOUND && 1 <= self.radius && self.radius <= DOMAIN_BOUND) {
            return None;
        }
        let ox = o.0 as i128 - cen.0 as i128;
        let oy = o.1 as i128 - cen.1 as i128;
        let oz = o.2 as i128 - cen.2 as i128;
        let dx = d.0 as i128;
        let dy = d.1 as i128;
        let dz = d.2 as i128;
        proof {
            lemma_domain_products(
                ox as int,
                oy as int,
                oz as int,
                dx as int,
                dy as int,
                dz as int,
                self.radius as int,
            );
        }
        let a = dx * dx + dy * dy + dz * dz;
        let h = ox * dx + oy * dy + oz * dz;
        let c = ox * ox + oy * oy + oz * oz - self.radius as i128 * self.radius as i128;
        proof {
            lemma_quadratic_terms(a as int, h as int, c as int);
        }
        let disc = h * h - a * c;
        if a == 0 || disc < 0 {
            return None;
        }
        let sq_u = sqrt_u128(disc as u128);
        proof {
            assert(sq_u as int <= 9_000_000_000_000_000_000int) by (nonlinear_arith)
                requires
                    (sq_u as int) * (sq_u as int) <= disc as u128 as int && disc as u128 as int
                        <= 80_000_000_000_000_000_000_000_000_000_000_000_000int && sq_u as int
                        >= 0,
            ;
        }
        let sq = sq_u as i128;
        proof {
            lemma_root_numerators(h as int, sq as int);
        }
        let root1 = div_floor((-h - sq) * (SCALE as i128), a);
        let time: i64;
        if t_min as i128 <= root1 && root1 <= t_max as i128 {
            time = root1 as i64;
        } else {
            let root2 = div_floor((-h + sq) * (SCALE as i128), a);
            if t_min as i128 <= root2 && root2 <= t_max as i128 {
                time = root2 as i64;
            } else {
                return None;
            }
        }
        let point = ray.at(time);
        let nx = point.0 as i128 - cen.0 as i128;
        let ny = point.1 as i128 - cen.1 as i128;
        let nz = point.2 as i128 - cen.2 as i128;
        proof {
            lemma_normal_numerators(nx as int, ny as int, nz as int);
        }
        let outward = Vec3(
            clamp_fx(div_floor(nx * (SCALE as i128), self.radius as i128)),
            clamp_fx(div_floor(ny * (SCALE as i128), self.radius as i128)),
            clamp_fx(div_floor(nz * (SCALE as i128), self.radius as i128)),
        );
        Some(HitRecord::new(point, time, self.material, ray, &outward))
    }
}

/// Tightening the upper bound can only drop a hit, never change it: the
/// hit a sphere reports under a bound `t1 <= t2` is the hit it reports
/// under `t2` whenever that hit's parameter still lies below `t1`, and no
/// hit otherwise.
pub proof fn lemma_sphere_hit_tightens(s: Sphere, ray: Ray, t_min: i64, t1: i64, t2: i64)
    requires
        t1 <= t2,
    ensures
        spec_sphere_hit(s, ray, t_min, t1) == match spec_sphere_hit(s, ray, t_min, t2) {
            Some(rec) => if rec.time <= t1 {
                Some(rec)
            } else {
                None::<HitRecord>
            },
            None => None::<HitRecord>,
        },
{
    if sphere_domain_ok(s, ray) {
        let ox = ray.origin.0 - s.center.0;
        let oy = ray.origin.1 - s.center.1;
        let oz = ray.origin.2 - s.center.2;
        let dx = ray.direction.0 as int;
        let dy = ray.direction.1 as int;
        let dz = ray.direction.2 as int;
        let a = dx * dx + dy * dy + dz * dz;
        let h = ox * dx + oy * dy + oz * dz;
        let c = ox * ox + oy * oy + oz * oz - (s.radius as int) * (s.radius as int);
        let disc = h * h - a * c;
        if a != 0 && disc >= 0 {
            assert(a > 0) by (nonlinear_arith)
                requires
                    a == dx * dx + dy * dy + dz * dz && a != 0,
            ;
            crate::common::fx::lemma_sqrt_floor_exists(disc);
            let sq = sqrt_floor(disc);
            let num1 = (-h - sq) * (SCALE as int);
            let num2 = (-h + sq) * (SCALE as int);
            assert(num1 <= num2) by (nonlinear_arith)
                requires
                    sq >= 0 && num1 == (-h - sq) * (SCALE as int) && num2 == (-h + sq) * (
                    SCALE as int),
            ;
            vstd::arithmetic::div_mod::lemma_div_is_ordered(num1, num2, a);
            assert(num1 / a <= num2 / a);
        }
    }
}

/// A reported hit's parameter lies inside the queried interval, and the
/// record carries the sphere's material.
pub proof fn lemma_sphere_hit_in_range(s: Sphere, ray: Ray, t_min: i64, t_max: i64)
    ensures
        spec_sphere_hit(s, ray, t_min, t_max) matches Some(rec) ==> t_min <= rec.time <= t_max
            && rec.material == s.material,
{
}

/// Bounds of the quadratic's coefficients for in-domain geometry.
proof fn lemma_domain_products(ox: int, oy: int, oz: int, dx: int, dy: int, dz: int, r: int)
    requires
        -2_000_000_000 <= ox <= 2_000_000_000,
        -2_000_000_000 <= oy <= 2_000_000_000,
        -2_000_000_000 <= oz <= 2_000_000_000,
        -1_000_000_000 <= dx <= 1_000_000_000,
        -1_000_000_000 <= dy <= 1_000_000_000,
        -1_000_000_000 <= dz <= 1_000_000_000,
        1 <= r <= 1_000_000_000,
    ensures
        0 <= dx * dx <= 1_000_000_000_000_000_000,
        0 <= dy * dy <= 1_000_000_000_000_000_000,
        0 <= dz * dz <= 1_000_000_000_000_000_000,
        -2_000_000_000_000_000_000 <= ox * dx <= 2_000_000_000_000_000_000,
        -2_000_000_000_000_000_000 <= oy * dy <= 2_000_000_000_000_000_000,
        -2_000_000_000_000_000_000 <= oz * dz <= 2_000_000_000_000_000_000,
        0 <= ox * ox <= 4_000_000_000_000_000_000,
        0 <= oy * oy <= 4_000_000_000_000_000_000,
        0 <= oz * oz <= 4_000_000_000_000_000_000,
        0 < r * r <= 1_000_000_000_000_000_000,
{
    assert(0 <= dx * dx <= 1_000_000_000_000_000_000 && 0 <= dy * dy <= 1_000_000_000_000_000_000
        && 0 <= dz * dz <= 1_000_000_000_000_000_000 && -2_000_000_000_000_000_000 <= ox * dx
        <= 2_000_000_000_000_000_000 && -2_000_000_000_000_000_000 <= oy * dy
        <= 2_000_000_000_000_000_000 && -2_000_000_000_000_000_000 <= oz * dz
        <= 2_000_000_000_000_000_000 && 0 <= ox * ox <= 4_000_000_000_000_000_000 && 0 <= oy * oy
        <= 4_000_000_000_000_000_000 && 0 <= oz * oz <= 4_000_000_000_000_000_000 && 0 < r * r
        <= 1_000_000_000_000_000_000) by (nonlinear_arith)
        requires
            -2_000_000_000 <= ox <= 2_000_000_000 && -2_000_000_000 <= oy <= 2_000_000_000
                && -2_000_000_000 <= oz <= 2_000_000_000 && -1_000_000_000 <= dx <= 1_000_000_000
                && -1_000_000_000 <= dy <= 1_000_000_000 && -1_000_000_000 <= dz <= 1_000_000_000
                && 1 <= r <= 1_000_000_000,
    ;
}

/// The discriminant of bounded coefficients fits comfortably in `i128`.
proof fn lemma_quadratic_terms(a: int, h: int, c: int)
    requires
        0 <= a <= 3_000_000_000_000_000_000,
        -6_000_000_000_000_000_000 <= h <= 6_000_000_000_000_000_000,
        -1_000_000_000_000_000_000 - 12_000_000_000_000_000_000 <= c
            <= 12_000_000_000_000_000_000,
    ensures
        0 <= h * h <= 36_000_000_000_000_000_000_000_000_000_000_000_000,
        -39_000_000_000_000_000_000_000_000_000_000_000_000 <= a * c
            <= 39_000_000_000_000_000_000_000_000_000_000_000_000,
        h * h - a * c <= 80_000_000_000_000_000_000_000_000_000_000_000_000,
{
    assert(0 <= h * h <= 36_000_000_000_000_000_000_000_000_000_000_000_000
        && -39_000_000_000_000_000_000_000_000_000_000_000_000 <= a * c
        <= 39_000_000_000_000_000_000_000_000_000_000_000_000) by (nonlinear_arith)
        requires
            0 <= a <= 3_000_000_000_000_000_000 && -6_000_000_000_000_000_000 <= h
                <= 6_000_000_000_000_000_000 && -13_000_000_000_000_000_000 <= c
                <= 12_000_000_000_000_000_000,
    ;
}

/// The root numerators of bounded `h` and square root fit in `i128` after
/// scaling.
proof fn lemma_root_numerators(h: int, sq: int)
    requires
        -6_000_000_000_000_000_000 <= h <= 6_000_000_000_000_000_000,
        0 <= sq <= 9_000_000_000_000_000_000,
    ensures
        (-h - sq) * (SCALE as int) > i128::MIN,
        (-h - sq) * (SCALE as int) < i128::MAX,
        (-h + sq) * (SCALE as int) > i128::MIN,
        (-h + sq) * (SCALE as int) < i128::MAX,
{
    assert((-h - sq) * 1_000_000 > i128::MIN && (-h - sq) * 1_000_000 < i128::MAX && (-h + sq)
        * 1_000_000 > i128::MIN && (-h + sq) * 1_000_000 < i128::MAX) by (nonlinear_arith)
        requires
            -6_000_000_000_000_000_000 <= h <= 6_000_000_000_000_000_000 && 0 <= sq
                <= 9_000_000_000_000_000_000,
    ;
}

/// The normal numerators of an in-range point fit in `i128` after scaling.
proof fn lemma_normal_numerators(nx: int, ny: int, nz: int)
    requires
        -2_000_000_000_000_000_000 <= nx <= 2_000_000_000_000_000_000,
        -2_000_000_000_000_000_000 <= ny <= 2_000_000_000_000_000_000,
        -2_000_000_000_000_000_000 <= nz <= 2_000_000_000_000_000_000,
    ensures
        i128::MIN < nx * (SCALE as int) < i128::MAX,
        i128::MIN < ny * (SCALE as int) < i128::MAX,
        i128::MIN < nz * (SCALE as int) < i128::MAX,
{
    assert(i128::MIN < nx * 1_000_000 < i128::MAX && i128::MIN < ny * 1_000_000 < i128::MAX
        && i128::MIN < nz * 1_000_000 < i128::MAX) by (nonlinear_arith)
        requires
            -2_000_000_000_000_000_000 <= nx <= 2_000_000_000_000_000_000
                && -2_000_000_000_000_000_000 <= ny <= 2_000_000_000_000_000_000
                && -2_000_000_000_000_000_000 <= nz <= 2_000_000_000_000_000_000,
    ;
}

} // verus!
