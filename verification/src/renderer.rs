//! The renderer: the recursive color estimator, gamma quantization, and
//! the deterministic scan-line schedule.

use crate::camera::{spec_camera_ray, Camera};
use crate::common::fx::{div_floor, mul_fx, spec_mul_fx, spec_sqrt_fx, sqrt_fx, HALF, SCALE};
use crate::common::random::{unit, Rng};
use crate::common::ray::Ray;
use crate::common::vec3::{
    color_in_unit, in_unit_disk, spec_add, spec_mul, spec_scale, spec_unit, v3, Color, Vec3,
};
use crate::hittable::hit_list::{spec_list_hit, HitList};
use crate::hittable::sphere::Sphere;
use crate::hittable::Hittable;
use crate::material::Material;
use vstd::arithmetic::div_mod::{
    lemma_div_is_ordered, lemma_div_multiples_vanish, lemma_div_nonincreasing,
    lemma_div_pos_is_pos,
};
use vstd::prelude::*;

verus! {

/// The lower intersection bound of every bounce: a thousandth of a unit,
/// which avoids immediate self-intersection at the previous bounce's
/// origin.
pub const T_MIN_BOUNCE: i64 = 1_000;

/// The upper intersection bound: every representable parameter qualifies.
pub const T_INF: i64 = i64::MAX;

/// The sky color at the top of the background gradient.
pub open spec fn spec_sky() -> Color {
    v3(500_000, 700_000, 1_000_000)
}

/// The background gradient a missing ray returns: with `a` half of one
/// plus the unit direction's vertical component, the color is
/// `(1 - a) * white + a * sky`.
pub open spec fn spec_background(ray: Ray) -> Color {
    let unit_dir = spec_unit(ray.direction);
    let alpha = spec_mul_fx(HALF as int, unit_dir.1 + SCALE);
    spec_add(
        spec_scale(v3(SCALE as int, SCALE as int, SCALE as int), SCALE - alpha),
        spec_scale(spec_sky(), alpha),
    )
}

/// A valid single-ray color estimate at the given depth budget: it lies in
/// the unit color box; it is black when the budget is zero; on a miss it is
/// exactly the background gradient; on a hit at budget one it is black (the
/// bounce's own budget is exhausted); and on a deeper hit it is the struck
/// material's attenuation times some unit-box estimate — or black, for a
/// material that can absorb.
pub open spec fn spec_estimate_ok(c: Color, ray: Ray, objs: Seq<Hittable>, depth: u32) -> bool {
    &&& color_in_unit(c)
    &&& depth == 0 ==> c == v3(0, 0, 0)
    &&& depth > 0 ==> (spec_list_hit(objs, ray, T_MIN_BOUNCE, T_INF) is None ==> c
        == spec_background(ray))
    &&& depth == 1 ==> (spec_list_hit(objs, ray, T_MIN_BOUNCE, T_INF) is Some ==> c == v3(
        0,
        0,
        0,
    ))
    &&& depth > 0 ==> (spec_list_hit(objs, ray, T_MIN_BOUNCE, T_INF) matches Some(rec) ==> {
        &&& (rec.material matches Material::Lambertian(l) ==> exists|b: Color|
            color_in_unit(b) && c == #[trigger] spec_mul(l.albedo, b))
        &&& (rec.material matches Material::Metal(m) ==> c == v3(0, 0, 0) || exists|b: Color|
            color_in_unit(b) && c == #[trigger] spec_mul(m.albedo, b))
    })
}

/// The color seen along a ray: black once the depth budget is exhausted;
/// on a hit, the scattered ray's color attenuated by the material (black
/// when the material absorbs); on a miss, the background gradient.
/// Whatever the sampling draws, the result is a valid estimate in the
/// sense of [`spec_estimate_ok`].
pub fn ray_color(ray: &Ray, world: &HitList, depth: u32, rng: &mut Rng) -> (c: Color)
    requires
        ray.wf(),
        world.wf(),
    ensures
        spec_estimate_ok(c, *ray, world.objects@, depth),
    decreases depth,
{
    let black = Vec3::black();
    if depth == 0 {
        return black;
    }
    match world.hit(ray, T_MIN_BOUNCE, T_INF) {
        Some(hit_rec) => {
            proof {
                lemma_list_hit_wf(world.objects@, *ray, T_MIN_BOUNCE, T_INF);
            }
            match hit_rec.material.scatter(ray, &hit_rec, rng) {
                Some(mat_rec) => {
                    let bounced = ray_color(&mat_rec.scattered, world, depth - 1, rng);
                    proof {
                        lemma_color_mul_in_unit(mat_rec.attenuation, bounced);
                    }
                    let out = mat_rec.attenuation.mul(&bounced);
                    proof {
                        assert(color_in_unit(bounced) && out == spec_mul(
                            mat_rec.attenuation,
                            bounced,
                        ));
                        if depth == 1 {
                            lemma_mul_black(mat_rec.attenuation);
                        }
                    }
                    out
                },
                None => black,
            }
        },
        None => {
            let unit_dir = ray.direction.unit_vec();
            let alpha = mul_fx(HALF, unit_dir.y() + SCALE);
            proof {
                lemma_half_blend_in_unit(unit_dir.1 as int, alpha as int);
            }
            let white = Vec3::white();
            let sky = Vec3(500_000, 700_000, 1_000_000);
            let c = white.scale(SCALE - alpha).add(&sky.scale(alpha));
            proof {
                lemma_gradient_in_unit(alpha as int);
            }
            c
        },
    }
}

/// A hit found in a well-formed scene carries a well-formed material,
/// normal and point.
pub proof fn lemma_list_hit_wf(objs: Seq<Hittable>, ray: Ray, t_min: i64, t_max: i64)
    requires
        forall|i: int| 0 <= i < objs.len() ==> (#[trigger] objs[i]).wf(),
    ensures
        spec_list_hit(objs, ray, t_min, t_max) matches Some(rec) ==> rec.material.wf()
            && rec.normal.wf() && rec.point.wf(),
    decreases objs.len(),
{
    if objs.len() > 0 {
        assert(forall|i: int|
            0 <= i < objs.drop_last().len() ==> (#[trigger] objs.drop_last()[i]).wf());
        lemma_list_hit_wf(objs.drop_last(), ray, t_min, t_max);
        let prev = spec_list_hit(objs.drop_last(), ray, t_min, t_max);
        let bound = match prev {
            Some(rec) => rec.time,
            None => t_max,
        };
        assert(objs.last().wf());
        match objs.last() {
            Hittable::Sphere(s) => {
                lemma_sphere_hit_wf(s, ray, t_min, bound);
            },
        }
    }
}

/// A sphere hit carries the sphere's material and a clamped (well-formed)
/// normal and point.
pub proof fn lemma_sphere_hit_wf(s: Sphere, ray: Ray, t_min: i64, t_max: i64)
    ensures
        crate::hittable::sphere::spec_sphere_hit(s, ray, t_min, t_max) matches Some(rec) ==> rec.material == s.material
            && rec.normal.wf() && rec.point.wf(),
{
}

/// Attenuating black gives black: every product against a zero channel is
/// zero.
proof fn lemma_mul_black(a: Vec3)
    ensures
        spec_mul(a, v3(0, 0, 0)) == v3(0, 0, 0),
{
    assert(a.0 * 0 == 0 && a.1 * 0 == 0 && a.2 * 0 == 0) by (nonlinear_arith);
    assert(0int / (SCALE as int) == 0) by (nonlinear_arith)
        requires
            SCALE == 1_000_000,
    ;
}

/// Attenuating one unit-box color by another stays in the unit box.
pub proof fn lemma_color_mul_in_unit(a: Vec3, b: Vec3)
    requires
        color_in_unit(a),
        color_in_unit(b),
    ensures
        color_in_unit(spec_mul(a, b)),
{
    lemma_unit_product_quotient(a.0 as int, b.0 as int);
    lemma_unit_product_quotient(a.1 as int, b.1 as int);
    lemma_unit_product_quotient(a.2 as int, b.2 as int);
}

/// For factors in `[0, SCALE]`, the fixed-point product lies in
/// `[0, SCALE]`.
proof fn lemma_unit_product_quotient(x: int, y: int)
    requires
        0 <= x <= SCALE as int,
        0 <= y <= SCALE as int,
    ensures
        0 <= (x * y) / (SCALE as int) <= SCALE as int,
{
    let s = SCALE as int;
    assert(0 <= x * y <= s * s) by (nonlinear_arith)
        requires
            0 <= x <= s && 0 <= y <= s,
    ;
    lemma_div_pos_is_pos(x * y, s);
    lemma_div_is_ordered(x * y, s * s, s);
    lemma_div_multiples_vanish(s, s);
}

/// The blend factor `half * (y + 1)` lies in `[0, 1]` for a unit-bounded
/// vertical component.
proof fn lemma_half_blend_in_unit(y: int, alpha: int)
    requires
        -(SCALE as int) <= y <= SCALE as int,
        alpha == spec_mul_fx(HALF as int, y + SCALE),
    ensures
        0 <= alpha <= SCALE as int,
{
    let s = SCALE as int;
    let h = HALF as int;
    assert(0 <= h * (y + s) <= s * s) by (nonlinear_arith)
        requires
            -s <= y <= s && h == 500_000 && s == 1_000_000,
    ;
    lemma_div_pos_is_pos(h * (y + s), s);
    lemma_div_is_ordered(h * (y + s), s * s, s);
    lemma_div_multiples_vanish(s, s);
}

/// The gradient `(1 - a) * white + a * sky` lies in the unit color box for
/// every blend factor `a` in `[0, 1]`.
proof fn lemma_gradient_in_unit(alpha: int)
    requires
        0 <= alpha <= SCALE as int,
    ensures
        color_in_unit(
            spec_add(
                spec_scale(v3(SCALE as int, SCALE as int, SCALE as int), SCALE - alpha),
                spec_scale(spec_sky(), alpha),
            ),
        ),
{
    let s = SCALE as int;
    lemma_div_multiples_vanish(s - alpha, s);
    assert(s * (s - alpha) == (s - alpha) * s && (s - alpha) * s == s * (s - alpha))
        by (nonlinear_arith);
    assert((s * (s - alpha)) / s == s - alpha);
    lemma_scaled_le(500_000, alpha);
    lemma_scaled_le(700_000, alpha);
    lemma_scaled_le(1_000_000, alpha);
}

/// Scaling a blend factor in `[0, 1]` by a coefficient in `[0, 1]` cannot
/// exceed the factor.
proof fn lemma_scaled_le(coeff: int, alpha: int)
    requires
        0 <= coeff <= SCALE as int,
        0 <= alpha <= SCALE as int,
    ensures
        0 <= (coeff * alpha) / (SCALE as int) <= alpha,
{
    let s = SCALE as int;
    assert(0 <= coeff * alpha <= s * alpha) by (nonlinear_arith)
        requires
            0 <= coeff <= s && 0 <= alpha,
    ;
    lemma_div_pos_is_pos(coeff * alpha, s);
    lemma_div_is_ordered(coeff * alpha, s * alpha, s);
    lemma_div_multiples_vanish(alpha, s);
}

/// Clamp a gamma-corrected channel to `[0, 0.999]` and widen it to 256
/// steps; the cap deliberately avoids reaching 256 at a channel value of
/// one.
pub open spec fn spec_quantize(v: int) -> int {
    let c = if v < 0 {
        0
    } else if v > 999_000 {
        999_000
    } else {
        v
    };
    (c * 256) / (SCALE as int)
}

/// One 8-bit channel: the accumulated channel averaged over the samples,
/// gamma-2 corrected (square root), then quantized.
pub open spec fn spec_channel_byte(v: int, spp: int) -> int {
    spec_quantize(spec_sqrt_fx(v / spp))
}

/// Map an accumulated pixel color to one 8-bit RGB triple; every channel
/// lies in `[0, 255]`.
pub fn color_to_rgb(color: &Color, samples_per_pixel: u32) -> (rgb: (u8, u8, u8))
    requires
        samples_per_pixel >= 1,
    ensures
        rgb.0 == spec_channel_byte(color.0 as int, samples_per_pixel as int),
        rgb.1 == spec_channel_byte(color.1 as int, samples_per_pixel as int),
        rgb.2 == spec_channel_byte(color.2 as int, samples_per_pixel as int),
        rgb.0 <= 255 && rgb.1 <= 255 && rgb.2 <= 255,
{
    (
        quantize_channel(color.0, samples_per_pixel),
        quantize_channel(color.1, samples_per_pixel),
        quantize_channel(color.2, samples_per_pixel),
    )
}

/// Average, gamma-correct and quantize one channel.
fn quantize_channel(v: i64, spp: u32) -> (b: u8)
    requires
        spp >= 1,
    ensures
        b == spec_channel_byte(v as int, spp as int),
        b <= 255,
{
    if v < 0 {
        proof {
            lemma_neg_div_neg(v as int, spp as int);
        }
        return 0;
    }
    let avg128 = div_floor(v as i128, spp as i128);
    proof {
        lemma_div_pos_is_pos(v as int, spp as int);
        lemma_div_nonincreasing(v as int, spp as int);
    }
    let avg = avg128 as i64;
    let g = sqrt_fx(avg);
    let c = if g > 999_000 {
        999_000
    } else {
        g
    };
    proof {
        lemma_div_pos_is_pos(c as int * 256, SCALE as int);
        lemma_div_is_ordered(c as int * 256, 255_744_000, SCALE as int);
        vstd::arithmetic::div_mod::lemma_fundamental_div_mod_converse_div(
            255_744_000,
            1_000_000,
            255,
            744_000,
        );
    }
    let q = div_floor(c as i128 * 256, SCALE as i128);
    q as u8
}

/// Dividing a negative value by a positive one stays negative.
proof fn lemma_neg_div_neg(a: int, b: int)
    requires
        a < 0,
        b >= 1,
    ensures
        a / b < 0,
{
    vstd::arithmetic::div_mod::lemma_fundamental_div_mod(a, b);
    let q = a / b;
    let r = a % b;
    assert(q < 0) by (nonlinear_arith)
        requires
            a == b * q + r && 0 <= r < b && a < 0 && b >= 1,
    ;
}

/// The rows of one band, topmost first: `start - 1` down to `stop`.
pub open spec fn spec_band_rows(start: int, stop: int) -> Seq<int> {
    Seq::new(
        if start >= stop {
            (start - stop) as nat
        } else {
            0
        },
        |k: int| start - 1 - k,
    )
}

/// The contiguous bands the scheduler assigns for `i` remaining rows and a
/// band height of `step`, topmost band first: each band spans `(start,
/// stop)` with its rows `start - 1` down to `stop`.
pub open spec fn spec_bands(i: int, step: int) -> Seq<(int, int)>
    decreases i,
{
    if i <= 0 || step <= 0 {
        Seq::empty()
    } else {
        let next = if i - step > 0 {
            i - step
        } else {
            0
        };
        seq![(i, next)] + spec_bands(next, step)
    }
}

/// All rows of a list of bands, band by band.
pub open spec fn spec_rows_of_bands(bands: Seq<(int, int)>) -> Seq<int>
    decreases bands.len(),
{
    if bands.len() == 0 {
        Seq::empty()
    } else {
        spec_rows_of_bands(bands.drop_last()) + spec_band_rows(bands.last().0, bands.last().1)
    }
}

/// The full image's rows, topmost first: `h - 1` down to `0`.
pub open spec fn spec_desc_rows(h: int) -> Seq<int> {
    Seq::new(
        if h >= 0 {
            h as nat
        } else {
            0
        },
        |k: int| h - 1 - k,
    )
}

/// Collecting rows distributes over band concatenation.
proof fn lemma_rows_concat(s1: Seq<(int, int)>, s2: Seq<(int, int)>)
    ensures
        spec_rows_of_bands(s1 + s2) == spec_rows_of_bands(s1) + spec_rows_of_bands(s2),
    decreases s2.len(),
{
    if s2.len() == 0 {
        assert(s1 + s2 =~= s1);
        assert(spec_rows_of_bands(s2) =~= Seq::<int>::empty());
        assert(spec_rows_of_bands(s1) + Seq::<int>::empty() =~= spec_rows_of_bands(s1));
    } else {
        lemma_rows_concat(s1, s2.drop_last());
        assert((s1 + s2).drop_last() =~= s1 + s2.drop_last());
        assert((s1 + s2).last() == s2.last());
        assert(spec_rows_of_bands(s1) + spec_rows_of_bands(s2.drop_last()) + spec_band_rows(
            s2.last().0,
            s2.last().1,
        ) =~= spec_rows_of_bands(s1) + spec_rows_of_bands(s2));
    }
}

/// The band schedule covers exactly the rows `height - 1` down to `0`, in
/// that order, for every band height: the image layout a banded render
/// produces does not depend on how the rows were split.
pub proof fn lemma_rows_cover(height: int, step: int)
    requires
        height >= 0,
        step >= 1,
    ensures
        spec_rows_of_bands(spec_bands(height, step)) == spec_desc_rows(height),
    decreases height,
{
    if height <= 0 {
        assert(spec_rows_of_bands(spec_bands(height, step)) =~= spec_desc_rows(height));
    } else {
        let next = if height - step > 0 {
            height - step
        } else {
            0
        };
        lemma_rows_cover(next, step);
        lemma_rows_concat(seq![(height, next)], spec_bands(next, step));
        assert(spec_rows_of_bands(seq![(height, next)]) =~= spec_band_rows(height, next)) by {
            let single = seq![(height, next)];
            assert(single.len() == 1 && single.last() == (height, next));
            assert(single.drop_last() =~= Seq::<(int, int)>::empty());
            assert(spec_rows_of_bands(Seq::<(int, int)>::empty()) =~= Seq::<int>::empty());
            assert(spec_rows_of_bands(single) == spec_rows_of_bands(single.drop_last())
                + spec_band_rows(height, next));
            assert(Seq::<int>::empty() + spec_band_rows(height, next) =~= spec_band_rows(
                height,
                next,
            ));
        };
        assert(spec_band_rows(height, next) + spec_desc_rows(next) =~= spec_desc_rows(height));
    }
}

/// Splitting the same image over one worker or many yields the same row
/// sequence, position for position: only the sampled values differ.
pub proof fn lemma_row_order_deterministic(height: int, wc1: int, wc2: int)
    requires
        height >= 0,
        wc1 >= 1,
        wc2 >= 1,
    ensures
        spec_rows_of_bands(spec_bands(height, height / wc1 + 1)) == spec_rows_of_bands(
            spec_bands(height, height / wc2 + 1),
        ),
{
    lemma_div_pos_is_pos(height, wc1);
    lemma_div_pos_is_pos(height, wc2);
    lemma_rows_cover(height, height / wc1 + 1);
    lemma_rows_cover(height, height / wc2 + 1);
}

/// The integer view of an executable band list.
pub open spec fn spec_band_view(bands: Seq<(u32, u32)>) -> Seq<(int, int)> {
    bands.map_values(|b: (u32, u32)| (b.0 as int, b.1 as int))
}

/// The bands the render partitions the image's rows into: contiguous,
/// topmost first, one per worker (the last may be shorter).
pub fn band_bounds(image_height: u32, worker_count: u32) -> (bands: Vec<(u32, u32)>)
    requires
        worker_count >= 1,
        image_height <= 1_000_000_000,
    ensures
        spec_band_view(bands@) == spec_bands(
            image_height as int,
            image_height as int / worker_count as int + 1,
        ),
{
    let step = image_height / worker_count + 1;
    let ghost step_i = image_height as int / worker_count as int + 1;
    let mut bands: Vec<(u32, u32)> = Vec::new();
    let mut i: u32 = image_height;
    proof {
        assert(spec_band_view(bands@) =~= Seq::<(int, int)>::empty());
        assert(Seq::<(int, int)>::empty() + spec_bands(i as int, step_i) =~= spec_bands(
            i as int,
            step_i,
        ));
    }
    while i > 0
        invariant
            step == step_i,
            step >= 1,
            i <= image_height <= 1_000_000_000,
            spec_band_view(bands@) + spec_bands(i as int, step_i) == spec_bands(
                image_height as int,
                step_i,
            ),
        decreases i,
    {
        let start = i;
        let stop = if i > step {
            i - step
        } else {
            0
        };
        bands.push((start, stop));
        proof {
            assert(spec_band_view(bands@) =~= spec_band_view(bands@.drop_last()) + seq![
                (start as int, stop as int),
            ]);
            assert(spec_bands(start as int, step_i) == seq![(start as int, stop as int)]
                + spec_bands(stop as int, step_i));
            assert(spec_band_view(bands@.drop_last()) + spec_bands(start as int, step_i)
                =~= spec_band_view(bands@) + spec_bands(stop as int, step_i));
        }
        i = stop;
    }
    proof {
        assert(spec_bands(0int, step_i) =~= Seq::<(int, int)>::empty());
        assert(spec_band_view(bands@) + Seq::<(int, int)>::empty() =~= spec_band_view(bands@));
    }
    bands
}

/// An accumulated pixel: each channel is a sum of at most `spp` unit-box
/// samples.
pub open spec fn sample_sum_ok(c: Color, spp: int) -> bool {
    &&& 0 <= c.0 <= spp * SCALE
    &&& 0 <= c.1 <= spp * SCALE
    &&& 0 <= c.2 <= spp * SCALE
}

/// One jittered normalized image coordinate: `(i + r) / (extent - 1)` for
/// a uniform `r` in `[0, 1)`, with a degenerate one-pixel extent mapped to
/// the whole numerator.
fn coord_sample(i: u32, extent: u32, rng: &mut Rng) -> (c: i64)
    ensures
        exists|r: int|
            0 <= r < SCALE && c == #[trigger] spec_coord(i as int, extent as int, r),
        0 <= c <= 5_000_000_000_000_000,
{
    let denom: i64 = if extent > 1 {
        (extent - 1) as i64
    } else {
        1
    };
    let num = i as i64 * SCALE + unit(rng);
    proof {
        lemma_div_pos_is_pos(num as int, denom as int);
        lemma_div_nonincreasing(num as int, denom as int);
    }
    let c = div_floor(num as i128, denom as i128) as i64;
    proof {
        let r = (num - i as i64 * SCALE) as int;
        assert(0 <= r < SCALE && c == spec_coord(i as int, extent as int, r));
    }
    c
}

/// The jittered coordinate a row or column index maps to.
pub open spec fn spec_coord(i: int, extent: int, r: int) -> int {
    let denom = if extent > 1 {
        extent - 1
    } else {
        1
    };
    (i * (SCALE as int) + r) / denom
}

/// The saturating component-wise sum of a sequence of colors.
pub open spec fn spec_color_sum(s: Seq<Color>) -> Color
    decreases s.len(),
{
    if s.len() == 0 {
        v3(0, 0, 0)
    } else {
        spec_add(spec_color_sum(s.drop_last()), s.last())
    }
}

/// One valid sample for the pixel at `row`, `col`: a valid single-ray
/// estimate along the camera ray through that pixel's jittered normalized
/// coordinates, for some jitters in `[0, 1)` and some unit-disk lens
/// sample.
pub open spec fn spec_sample_ok(
    c: Color,
    objs: Seq<Hittable>,
    camera: Camera,
    image_width: u32,
    image_height: u32,
    max_depth: u32,
    row: int,
    col: int,
) -> bool {
    exists|ru: int, rv: int, rd: Vec3|
        0 <= ru < SCALE && 0 <= rv < SCALE && in_unit_disk(rd) && #[trigger] spec_estimate_ok(
            c,
            spec_camera_ray(
                camera,
                spec_coord(col, image_width as int, ru) as i64,
                spec_coord(row, image_height as int, rv) as i64,
                rd,
            ),
            objs,
            max_depth,
        )
}

/// A finished pixel at `row`, `col`: the sum of exactly
/// `samples_per_pixel` valid samples for that pixel.
pub open spec fn spec_pixel_ok(
    p: Color,
    objs: Seq<Hittable>,
    camera: Camera,
    image_width: u32,
    image_height: u32,
    samples_per_pixel: u32,
    max_depth: u32,
    row: int,
    col: int,
) -> bool {
    exists|samples: Seq<Color>|
        {
            &&& samples.len() == samples_per_pixel
            &&& (forall|k: int|
                0 <= k < samples.len() ==> spec_sample_ok(
                    #[trigger] samples[k],
                    objs,
                    camera,
                    image_width,
                    image_height,
                    max_depth,
                    row,
                    col,
                ))
            &&& p == #[trigger] spec_color_sum(samples)
        }
}

/// Render the full-resolution rows `row_start - 1` down to `row_stop`:
/// for each pixel, left to right, the sum of `samples_per_pixel`
/// independent color estimates along jittered camera rays.  The pixel of
/// row `r` and column `c` stands at buffer index
/// `(row_start - 1 - r) * image_width + c` and is a valid pixel for that
/// position: the row-major top-to-bottom layout is part of the contract.
#[verifier::rlimit(100)]
pub fn render_band(
    world: &HitList,
    camera: &Camera,
    image_width: u32,
    image_height: u32,
    samples_per_pixel: u32,
    max_depth: u32,
    row_start: u32,
    row_stop: u32,
    rng: &mut Rng,
) -> (pixels: Vec<Color>)
    requires
        world.wf(),
        camera.wf(),
        row_stop <= row_start,
        (row_start - row_stop) * image_width <= usize::MAX,
    ensures
        pixels@.len() == (row_start - row_stop) * image_width,
        forall|j: int|
            0 <= j < pixels@.len() ==> sample_sum_ok(
                #[trigger] pixels@[j],
                samples_per_pixel as int,
            ),
        forall|r: int, c: int|
            row_stop <= r < row_start && 0 <= c < image_width ==> spec_pixel_ok(
                #[trigger] pixels@[(row_start - 1 - r) * image_width + c],
                world.objects@,
                *camera,
                image_width,
                image_height,
                samples_per_pixel,
                max_depth,
                r,
                c,
            ),
{
    let mut pixels: Vec<Color> = Vec::new();
    let mut iy = row_start;
    while iy > row_stop
        invariant
            world.wf(),
            camera.wf(),
            row_stop <= iy <= row_start,
            (row_start - row_stop) * image_width <= usize::MAX,
            pixels@.len() == (row_start - iy) * image_width,
            forall|j: int|
                0 <= j < pixels@.len() ==> sample_sum_ok(
                    #[trigger] pixels@[j],
                    samples_per_pixel as int,
                ),
            forall|r: int, c: int|
                iy <= r < row_start && 0 <= c < image_width ==> spec_pixel_ok(
                    #[trigger] pixels@[(row_start - 1 - r) * image_width + c],
                    world.objects@,
                    *camera,
                    image_width,
                    image_height,
                    samples_per_pixel,
                    max_depth,
                    r,
                    c,
                ),
        decreases iy,
    {
        iy = iy - 1;
        let mut ix: u32 = 0;
        proof {
            lemma_row_capacity(
                row_start as int,
                row_stop as int,
                iy as int,
                image_width as int,
            );
        }
        while ix < image_width
            invariant
                world.wf(),
                camera.wf(),
                row_stop <= iy < row_start,
                ix <= image_width,
                pixels@.len() == (row_start - iy - 1) * image_width + ix,
                (row_start - iy - 1) * image_width + image_width <= (row_start - row_stop)
                    * image_width <= usize::MAX,
                forall|j: int|
                    0 <= j < pixels@.len() ==> sample_sum_ok(
                        #[trigger] pixels@[j],
                        samples_per_pixel as int,
                    ),
                forall|r: int, c: int|
                    iy < r < row_start && 0 <= c < image_width ==> spec_pixel_ok(
                        #[trigger] pixels@[(row_start - 1 - r) * image_width + c],
                        world.objects@,
                        *camera,
                        image_width,
                        image_height,
                        samples_per_pixel,
                        max_depth,
                        r,
                        c,
                    ),
                forall|c: int|
                    0 <= c < ix ==> spec_pixel_ok(
                        #[trigger] pixels@[(row_start - 1 - iy) * image_width + c],
                        world.objects@,
                        *camera,
                        image_width,
                        image_height,
                        samples_per_pixel,
                        max_depth,
                        iy as int,
                        c,
                    ),
            decreases image_width - ix,
        {
            let mut pixel_color = Vec3::black();
            let mut s: u32 = 0;
            let ghost mut samples: Seq<Color> = Seq::empty();
            while s < samples_per_pixel
                invariant
                    world.wf(),
                    camera.wf(),
                    s <= samples_per_pixel,
                    sample_sum_ok(pixel_color, s as int),
                    samples.len() == s,
                    pixel_color == spec_color_sum(samples),
                    forall|k: int|
                        0 <= k < samples.len() ==> spec_sample_ok(
                            #[trigger] samples[k],
                            world.objects@,
                            *camera,
                            image_width,
                            image_height,
                            max_depth,
                            iy as int,
                            ix as int,
                        ),
                decreases samples_per_pixel - s,
            {
                let u = coord_sample(ix, image_width, rng);
                let v = coord_sample(iy, image_height, rng);
                let ray = camera.get_ray(u, v, rng);
                let sample = ray_color(&ray, world, max_depth, rng);
                proof {
                    lemma_sample_sum_grows(pixel_color, sample, s as int);
                    let ru = choose|r: int|
                        0 <= r < SCALE && u == #[trigger] spec_coord(
                            ix as int,
                            image_width as int,
                            r,
                        );
                    let rv = choose|r: int|
                        0 <= r < SCALE && v == #[trigger] spec_coord(
                            iy as int,
                            image_height as int,
                            r,
                        );
                    let rd = choose|rd: Vec3|
                        #[trigger] in_unit_disk(rd) && ray == spec_camera_ray(*camera, u, v, rd);
                    assert(spec_coord(ix as int, image_width as int, ru) as i64 == u);
                    assert(spec_coord(iy as int, image_height as int, rv) as i64 == v);
                    assert(spec_estimate_ok(
                        sample,
                        spec_camera_ray(
                            *camera,
                            spec_coord(ix as int, image_width as int, ru) as i64,
                            spec_coord(iy as int, image_height as int, rv) as i64,
                            rd,
                        ),
                        world.objects@,
                        max_depth,
                    ));
                    assert(spec_sample_ok(
                        sample,
                        world.objects@,
                        *camera,
                        image_width,
                        image_height,
                        max_depth,
                        iy as int,
                        ix as int,
                    ));
                    let ghost prev = samples;
                    samples = samples.push(sample);
                    assert(samples.drop_last() =~= prev);
                    assert(samples.last() == sample);
                }
                pixel_color = pixel_color.add(&sample);
                s = s + 1;
            }
            proof {
                assert(spec_pixel_ok(
                    pixel_color,
                    world.objects@,
                    *camera,
                    image_width,
                    image_height,
                    samples_per_pixel,
                    max_depth,
                    iy as int,
                    ix as int,
                ));
            }
            pixels.push(pixel_color);
            proof {
                assert forall|r: int, c: int|
                    iy < r < row_start && 0 <= c < image_width implies spec_pixel_ok(
                    #[trigger] pixels@[(row_start - 1 - r) * image_width + c],
                    world.objects@,
                    *camera,
                    image_width,
                    image_height,
                    samples_per_pixel,
                    max_depth,
                    r,
                    c,
                ) by {
                    lemma_index_below(
                        row_start as int - 1 - r,
                        row_start as int - 1 - iy,
                        image_width as int,
                        c,
                    );
                };
            }
            ix = ix + 1;
        }
        proof {
            assert((row_start - iy - 1) * image_width + image_width == (row_start - iy)
                * image_width) by (nonlinear_arith);
        }
    }
    pixels
}

/// A flat row-major index under a strictly later row stays below that
/// row's first index.
proof fn lemma_index_below(a: int, b: int, w: int, c: int)
    requires
        0 <= a < b,
        0 <= c < w,
    ensures
        0 <= a * w + c < b * w,
        a * w + c < b * w + w,
{
    assert(0 <= a * w + c < b * w) by (nonlinear_arith)
        requires
            0 <= a < b && 0 <= c < w,
    ;
}

/// A row under render still fits the band's pixel budget.
proof fn lemma_row_capacity(row_start: int, row_stop: int, iy: int, w: int)
    requires
        row_stop <= iy < row_start,
        w >= 0,
    ensures
        (row_start - iy - 1) * w + w <= (row_start - row_stop) * w,
{
    assert((row_start - iy - 1) * w + w <= (row_start - row_stop) * w) by (nonlinear_arith)
        requires
            row_stop <= iy < row_start && w >= 0,
    ;
}

/// Adding one more unit-box sample to a bounded sum keeps every channel a
/// bounded sum: with at most `u32::MAX` samples the accumulator never
/// reaches the saturation bound, so the addition is exact.
proof fn lemma_sample_sum_grows(acc: Color, sample: Color, s: int)
    requires
        0 <= s < u32::MAX,
        sample_sum_ok(acc, s),
        color_in_unit(sample),
    ensures
        sample_sum_ok(spec_add(acc, sample), s + 1),
{
    assert(s * SCALE + SCALE == (s + 1) * SCALE && (s + 1) * SCALE
        <= 0x1_0000_0000 * 1_000_000) by (nonlinear_arith)
        requires
            0 <= s < 0x1_0000_0000,
    ;
}

/// Render the whole image: the rows are split into contiguous bands, one
/// per worker, and rendered topmost band first.  The output holds exactly
/// `image_width * image_height` pixels; the pixel of row `r` and column
/// `c` stands at buffer index `(image_height - 1 - r) * image_width + c`
/// and is a valid pixel for that position — the same row-major
/// top-to-bottom layout for every worker count, only the sampled values
/// varying.
#[verifier::rlimit(100)]
pub fn render(
    world: &HitList,
    camera: &Camera,
    image_width: u32,
    image_height: u32,
    samples_per_pixel: u32,
    max_depth: u32,
    worker_count: u32,
    rng: &mut Rng,
) -> (pixels: Vec<Color>)
    requires
        world.wf(),
        camera.wf(),
        worker_count >= 1,
        image_height <= 1_000_000_000,
        image_width * image_height <= usize::MAX,
    ensures
        pixels@.len() == image_width * image_height,
        forall|j: int|
            0 <= j < pixels@.len() ==> sample_sum_ok(
                #[trigger] pixels@[j],
                samples_per_pixel as int,
            ),
        forall|r: int, c: int|
            0 <= r < image_height && 0 <= c < image_width ==> spec_pixel_ok(
                #[trigger] pixels@[(image_height - 1 - r) * image_width + c],
                world.objects@,
                *camera,
                image_width,
                image_height,
                samples_per_pixel,
                max_depth,
                r,
                c,
            ),
{
    let step = image_height / worker_count + 1;
    let mut pixels: Vec<Color> = Vec::new();
    let mut i: u32 = image_height;
    proof {
        assert((image_height - i) * image_width == 0) by (nonlinear_arith)
            requires
                i == image_height,
        ;
    }
    while i > 0
        invariant
            world.wf(),
            camera.wf(),
            step >= 1,
            i <= image_height <= 1_000_000_000,
            image_width * image_height <= usize::MAX,
            pixels@.len() == (image_height - i) * image_width,
            forall|j: int|
                0 <= j < pixels@.len() ==> sample_sum_ok(
                    #[trigger] pixels@[j],
                    samples_per_pixel as int,
                ),
            forall|r: int, c: int|
                i <= r < image_height && 0 <= c < image_width ==> spec_pixel_ok(
                    #[trigger] pixels@[(image_height - 1 - r) * image_width + c],
                    world.objects@,
                    *camera,
                    image_width,
                    image_height,
                    samples_per_pixel,
                    max_depth,
                    r,
                    c,
                ),
        decreases i,
    {
        let start = i;
        let stop = if i > step {
            i - step
        } else {
            0
        };
        proof {
            lemma_band_budget(
                image_height as int,
                start as int,
                stop as int,
                image_width as int,
            );
        }
        let mut band = render_band(
            world,
            camera,
            image_width,
            image_height,
            samples_per_pixel,
            max_depth,
            start,
            stop,
            rng,
        );
        let ghost old_pixels = pixels@;
        let ghost band_view = band@;
        pixels.append(&mut band);
        proof {
            lemma_band_accounting(
                image_height as int,
                start as int,
                stop as int,
                image_width as int,
            );
            assert forall|r: int, c: int|
                stop <= r < image_height && 0 <= c < image_width implies spec_pixel_ok(
                #[trigger] pixels@[(image_height - 1 - r) * image_width + c],
                world.objects@,
                *camera,
                image_width,
                image_height,
                samples_per_pixel,
                max_depth,
                r,
                c,
            ) by {
                let idx = (image_height - 1 - r) * image_width + c;
                if r >= start {
                    lemma_index_below(
                        image_height as int - 1 - r,
                        image_height as int - start,
                        image_width as int,
                        c,
                    );
                    assert(pixels@[idx] == old_pixels[idx]);
                } else {
                    lemma_index_below(
                        start as int - 1 - r,
                        start as int - stop,
                        image_width as int,
                        c,
                    );
                    assert((image_height - 1 - r) * image_width == (image_height - start)
                        * image_width + (start - 1 - r) * image_width) by (nonlinear_arith);
                    assert(pixels@[idx] == band_view[(start - 1 - r) * image_width + c]);
                }
            };
        }
        i = stop;
    }
    proof {
        assert((image_height - 0) * image_width == image_width * image_height)
            by (nonlinear_arith);
    }
    pixels
}

/// A band's pixels fit within the remaining image budget.
proof fn lemma_band_budget(h: int, start: int, stop: int, w: int)
    requires
        0 <= stop <= start <= h,
        w >= 0,
        w * h <= usize::MAX,
    ensures
        (start - stop) * w <= usize::MAX,
{
    assert((start - stop) * w <= w * h) by (nonlinear_arith)
        requires
            0 <= stop <= start <= h && w >= 0,
    ;
}

/// Appending a band's pixels advances the row accounting.
proof fn lemma_band_accounting(h: int, start: int, stop: int, w: int)
    requires
        0 <= stop <= start <= h,
    ensures
        (h - start) * w + (start - stop) * w == (h - stop) * w,
{
    assert((h - start) * w + (start - stop) * w == (h - stop) * w) by (nonlinear_arith);
}

} // verus!
