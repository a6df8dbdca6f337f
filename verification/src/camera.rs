//! The camera: an orthonormal view basis built once from the view
//! parameters, generating one primary ray per normalized image coordinate,
//! with depth-of-field lens sampling.

use crate::common::fx::{fx_ok, mul_fx, spec_mul_fx, FX_MAX, HALF, SCALE};
use crate::common::random::Rng;
use crate::common::ray::Ray;
use crate::common::vec3::{
    in_unit_disk, lemma_scale_by_zero, lemma_scale_zero_vec, spec_add, spec_cross, spec_scale,
    spec_sub, spec_unit, v3, Point, Vec3,
};
use vstd::prelude::*;

verus! {

/// An immutable camera: origin, view-plane basis and lens radius, all
/// derived once at construction.
#[derive(Clone, Copy, Debug)]
pub struct Camera {
    pub origin: Point,
    pub lower_left_corner: Point,
    pub horizontal: Vec3,
    pub vertical: Vec3,
    pub u: Vec3,
    pub v: Vec3,
    pub lens_radius: i64,
}

/// The camera the view parameters determine: `w` looks backwards along the
/// view direction, `u` spans the image's horizontal, `v` its vertical; the
/// viewport is `2 * half_tan_vfov` high and `aspect_ratio` times as wide,
/// both stretched to the focus distance; the lens radius is half the
/// aperture.
pub open spec fn spec_camera(
    lookfrom: Point,
    lookat: Point,
    vup: Vec3,
    half_tan_vfov: i64,
    aspect_ratio: i64,
    aperture: i64,
    focus_dist: i64,
) -> Camera {
    let w = spec_unit(spec_sub(lookfrom, lookat));
    let u = spec_unit(spec_cross(vup, w));
    let v = spec_cross(w, u);
    let viewport_height = 2 * half_tan_vfov;
    let viewport_width = spec_mul_fx(aspect_ratio as int, viewport_height);
    let horizontal = spec_scale(u, spec_mul_fx(focus_dist as int, viewport_width));
    let vertical = spec_scale(v, spec_mul_fx(focus_dist as int, viewport_height as int));
    let lower_left_corner = spec_sub(
        spec_sub(
            spec_sub(lookfrom, spec_scale(horizontal, HALF as int)),
            spec_scale(vertical, HALF as int),
        ),
        spec_scale(w, focus_dist as int),
    );
    Camera {
        origin: lookfrom,
        lower_left_corner,
        horizontal,
        vertical,
        u,
        v,
        lens_radius: (aperture as int / 2) as i64,
    }
}

/// The primary ray for normalized image coordinates `(s, t)` and a lens
/// sample `rd` of the unit disk: it starts at the origin shifted by the
/// scaled lens sample and aims at the image-plane point `(s, t)`.
pub open spec fn spec_camera_ray(cam: Camera, s: i64, t: i64, rd: Vec3) -> Ray {
    let rds = spec_scale(rd, cam.lens_radius as int);
    let offset = spec_add(spec_scale(cam.u, rds.0 as int), spec_scale(cam.v, rds.1 as int));
    let target = spec_add(
        cam.lower_left_corner,
        spec_add(spec_scale(cam.horizontal, s as int), spec_scale(cam.vertical, t as int)),
    );
    Ray {
        origin: spec_add(cam.origin, offset),
        direction: spec_sub(spec_sub(target, cam.origin), offset),
    }
}

impl Camera {
    pub open spec fn wf(self) -> bool {
        &&& self.origin.wf()
        &&& self.lower_left_corner.wf()
        &&& self.horizontal.wf()
        &&& self.vertical.wf()
        &&& self.u.wf()
        &&& self.v.wf()
        &&& 0 <= self.lens_radius <= FX_MAX
    }

    /// Build the camera from eye position, look target, up vector, the
    /// tangent of half the vertical field of view, aspect ratio, aperture
    /// and focus distance (the last five as fixed-point scalars).
    pub fn new(
        lookfrom: Point,
        lookat: Point,
        vup: Vec3,
        half_tan_vfov: i64,
        aspect_ratio: i64,
        aperture: i64,
        focus_dist: i64,
    ) -> (r: Camera)
        requires
            lookfrom.wf(),
            lookat.wf(),
            vup.wf(),
            0 <= half_tan_vfov <= FX_MAX,
            0 <= aperture <= FX_MAX,
            fx_ok(aspect_ratio as int),
            fx_ok(focus_dist as int),
        ensures
            r == spec_camera(lookfrom, lookat, vup, half_tan_vfov, aspect_ratio, aperture,
            focus_dist),
            r.wf(),
    {
        let w = lookfrom.sub(&lookat).unit_vec();
        let u = vup.cross(&w).unit_vec();
        let v = w.cross(&u);
        let viewport_height = 2 * half_tan_vfov;
        let viewport_width = mul_fx(aspect_ratio, viewport_height);
        let horizontal = u.scale(mul_fx(focus_dist, viewport_width));
        let vertical = v.scale(mul_fx(focus_dist, viewport_height));
        let lower_left_corner = lookfrom
            .sub(&horizontal.scale(HALF))
            .sub(&vertical.scale(HALF))
            .sub(&w.scale(focus_dist));
        Camera {
            origin: lookfrom,
            lower_left_corner,
            horizontal,
            vertical,
            u,
            v,
            lens_radius: aperture / 2,
        }
    }

    /// The primary ray for normalized image coordinates `(s, t)`, its
    /// origin shifted over the lens disk.  With a closed aperture
    /// (`lens_radius == 0`) the ray is the exact pinhole ray.
    pub fn get_ray(&self, s: i64, t: i64, rng: &mut Rng) -> (r: Ray)
        requires
            self.wf(),
        ensures
            exists|rd: Vec3| #[trigger] in_unit_disk(rd) && r == spec_camera_ray(*self, s, t, rd),
            self.lens_radius == 0 ==> r == spec_camera_ray(*self, s, t, v3(0, 0, 0)),
            r.wf(),
    {
        let rd_sample = Vec3::random_in_unit_disk(rng);
        let rd = rd_sample.scale(self.lens_radius);
        let offset = self.u.scale(rd.x()).add(&self.v.scale(rd.y()));
        let target = self.lower_left_corner.add(
            &self.horizontal.scale(s).add(&self.vertical.scale(t)),
        );
        let ray = Ray::new(
            self.origin.add(&offset),
            target.sub(&self.origin).sub(&offset),
        );
        proof {
            assert(in_unit_disk(rd_sample) && ray == spec_camera_ray(*self, s, t, rd_sample));
            if self.lens_radius == 0 {
                lemma_scale_by_zero(rd_sample);
                lemma_scale_zero_vec(self.lens_radius as int);
                assert(spec_scale(v3(0, 0, 0), self.lens_radius as int) == v3(0, 0, 0));
            }
        }
        ray
    }
}

} // verus!
