use rt_weekend::camera::Camera;
use rt_weekend::common::fx::SCALE;
use rt_weekend::common::random::new_rng;
use rt_weekend::common::vec3::Vec3;
use rt_weekend::hittable::hit_list::HitList;
use rt_weekend::hittable::sphere::Sphere;
use rt_weekend::hittable::Hittable;
use rt_weekend::material::lambertian::Lambertian;
use rt_weekend::material::metal::Metal;
use rt_weekend::material::Material;
use rt_weekend::renderer::{band_bounds, color_to_rgb, render, render_band};

fn small_scene() -> HitList {
    let mut world = HitList::default();
    world.add(Hittable::Sphere(Sphere::new(
        Vec3::new(0, 0, -SCALE),
        500_000,
        Material::Lambertian(Lambertian::new(Vec3::new(400_000, 200_000, 100_000))),
    )));
    world.add(Hittable::Sphere(Sphere::new(
        Vec3::new(SCALE, 0, -SCALE),
        500_000,
        Material::Metal(Metal::new(Vec3::new(700_000, 600_000, 500_000), 100_000)),
    )));
    world
}

fn simple_camera() -> Camera {
    Camera::new(
        Vec3::new(0, 0, 0),
        Vec3::new(0, 0, -SCALE),
        Vec3::new(0, SCALE, 0),
        SCALE,      // tangent of half a 90-degree field of view
        SCALE,      // square aspect ratio
        0,          // pinhole: no defocus blur
        SCALE,      // focus at one unit
    )
}

#[test]
fn pinhole_center_ray_looks_along_the_view_axis() {
    let mut rng = new_rng();
    let camera = simple_camera();
    let ray = camera.get_ray(500_000, 500_000, &mut rng);
    assert_eq!(ray.origin, Vec3::new(0, 0, 0));
    assert_eq!(ray.direction, Vec3::new(0, 0, -SCALE));
}

#[test]
fn render_yields_width_times_height_pixels() {
    let mut rng = new_rng();
    let world = small_scene();
    let camera = simple_camera();
    for workers in [1u32, 2, 3, 7] {
        let pixels = render(&world, &camera, 5, 4, 2, 3, workers, &mut rng);
        assert_eq!(pixels.len(), 20);
        for color in pixels.iter() {
            // accumulated channels stay within the sample budget
            assert!((0..=2 * SCALE).contains(&color.x()));
            assert!((0..=2 * SCALE).contains(&color.y()));
            assert!((0..=2 * SCALE).contains(&color.z()));
            let (r, g, b) = color_to_rgb(color, 2);
            assert!(r <= 255 && g <= 255 && b <= 255);
        }
    }
}

#[test]
fn render_band_covers_its_rows() {
    let mut rng = new_rng();
    let world = small_scene();
    let camera = simple_camera();
    let pixels = render_band(&world, &camera, 6, 10, 1, 2, 9, 4, &mut rng);
    assert_eq!(pixels.len(), 30);
}

fn rows_of(bands: &[(u32, u32)]) -> Vec<u32> {
    let mut rows = Vec::new();
    for &(start, stop) in bands {
        let mut r = start;
        while r > stop {
            r -= 1;
            rows.push(r);
        }
    }
    rows
}

#[test]
fn row_order_is_identical_for_any_worker_count() {
    // the same image split for 1 worker and for several: the flattened row
    // sequence is position-for-position identical
    let single = band_bounds(10, 1);
    assert_eq!(single, vec![(10, 0)]);
    let triple = band_bounds(10, 3);
    assert_eq!(triple, vec![(10, 6), (6, 2), (2, 0)]);
    let expected: Vec<u32> = (0..10).rev().collect();
    assert_eq!(rows_of(&single), expected);
    assert_eq!(rows_of(&triple), expected);
    for workers in 1..12u32 {
        assert_eq!(rows_of(&band_bounds(10, workers)), expected);
    }
}

#[test]
fn band_partition_edge_cases() {
    // no rows: no bands
    assert_eq!(band_bounds(0, 4), Vec::<(u32, u32)>::new());
    // one row, many workers: a single one-row band
    assert_eq!(band_bounds(1, 5), vec![(1, 0)]);
    // more workers than rows: every band still spans at least one row
    for (start, stop) in band_bounds(3, 9) {
        assert!(start > stop);
    }
}

#[test]
fn open_aperture_rays_start_near_the_origin() {
    let mut rng = new_rng();
    let camera = Camera::new(
        Vec3::new(0, 0, 0),
        Vec3::new(0, 0, -SCALE),
        Vec3::new(0, SCALE, 0),
        SCALE,
        SCALE,
        200_000, // an open aperture: the lens radius is a tenth of a unit
        SCALE,
    );
    for _ in 0..50 {
        let ray = camera.get_ray(500_000, 500_000, &mut rng);
        // the lens sample shifts the origin by less than the lens radius
        assert!(ray.origin.x().abs() <= 100_000);
        assert!(ray.origin.y().abs() <= 100_000);
        assert_eq!(ray.origin.z(), 0);
    }
}

#[test]
fn gamma_quantization_maps_known_values() {
    // a full-white accumulation over 4 samples: each channel averages to
    // 1.0, is clamped at 0.999 and quantized to 255
    let white_sum = Vec3::new(4_000_000, 4_000_000, 4_000_000);
    assert_eq!(color_to_rgb(&white_sum, 4), (255, 255, 255));
    // black stays black
    assert_eq!(color_to_rgb(&Vec3::new(0, 0, 0), 7), (0, 0, 0));
    // a quarter-intensity channel gamma-corrects to one half: 128
    let quarter = Vec3::new(250_000, 0, 1_000_000);
    assert_eq!(color_to_rgb(&quarter, 1), (128, 0, 255));
}
