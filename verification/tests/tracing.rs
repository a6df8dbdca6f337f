use rt_weekend::common::fx::SCALE;
use rt_weekend::common::random::new_rng;
use rt_weekend::common::ray::Ray;
use rt_weekend::common::vec3::Vec3;
use rt_weekend::hittable::hit_list::HitList;
use rt_weekend::hittable::sphere::Sphere;
use rt_weekend::hittable::Hittable;
use rt_weekend::material::lambertian::Lambertian;
use rt_weekend::material::Material;
use rt_weekend::renderer::{ray_color, T_INF, T_MIN_BOUNCE};

fn gray() -> Material {
    Material::Lambertian(Lambertian::new(Vec3::new(500_000, 500_000, 500_000)))
}

fn two_sphere_scene() -> HitList {
    // center (0, 0, -1) radius 0.5, and center (0, 0, -2) radius 0.5
    let mut world = HitList::default();
    world.add(Hittable::Sphere(Sphere::new(Vec3::new(0, 0, -SCALE), 500_000, gray())));
    world.add(Hittable::Sphere(Sphere::new(Vec3::new(0, 0, -2_000_000), 500_000, gray())));
    world
}

#[test]
fn miss_returns_the_background_gradient_exactly() {
    // direction (0, 1, 0): alpha = 1, so the color is the sky exactly
    let mut rng = new_rng();
    let world = HitList::default();
    let ray = Ray::new(Vec3::new(0, 0, 0), Vec3::new(0, SCALE, 0));
    let c = ray_color(&ray, &world, 10, &mut rng);
    assert_eq!(c, Vec3::new(500_000, 700_000, 1_000_000));
}

#[test]
fn miss_straight_down_blends_toward_white() {
    // direction (0, -1, 0): alpha = 0, so the color is white exactly
    let mut rng = new_rng();
    let world = HitList::default();
    let ray = Ray::new(Vec3::new(0, 0, 0), Vec3::new(0, -SCALE, 0));
    let c = ray_color(&ray, &world, 10, &mut rng);
    assert_eq!(c, Vec3::white());
}

#[test]
fn nearest_sphere_wins() {
    let world = two_sphere_scene();
    let ray = Ray::new(Vec3::new(0, 0, 0), Vec3::new(0, 0, -SCALE));
    let rec = world.hit(&ray, T_MIN_BOUNCE, T_INF).unwrap();
    // the near sphere's closer root: t = 0.5, never 1.5
    assert_eq!(rec.time, 500_000);
    assert!(rec.front_face);
    assert_eq!(rec.normal, Vec3::new(0, 0, SCALE));
    assert_eq!(rec.point, Vec3::new(0, 0, -500_000));
}

#[test]
fn nearest_hit_is_insertion_order_independent() {
    let mut reversed = HitList::default();
    reversed.add(Hittable::Sphere(Sphere::new(Vec3::new(0, 0, -2_000_000), 500_000, gray())));
    reversed.add(Hittable::Sphere(Sphere::new(Vec3::new(0, 0, -SCALE), 500_000, gray())));
    let ray = Ray::new(Vec3::new(0, 0, 0), Vec3::new(0, 0, -SCALE));
    let rec = reversed.hit(&ray, T_MIN_BOUNCE, T_INF).unwrap();
    assert_eq!(rec.time, 500_000);
}

#[test]
fn exact_tie_goes_to_the_first_object() {
    // two spheres of identical geometry, different materials: both first
    // hit at t = 0.5, and the first-encountered one must win the tie
    let red = Material::Lambertian(Lambertian::new(Vec3::new(900_000, 100_000, 100_000)));
    let blue = Material::Lambertian(Lambertian::new(Vec3::new(100_000, 100_000, 900_000)));
    let mut world = HitList::default();
    world.add(Hittable::Sphere(Sphere::new(Vec3::new(0, 0, -SCALE), 500_000, red)));
    world.add(Hittable::Sphere(Sphere::new(Vec3::new(0, 0, -SCALE), 500_000, blue)));
    let ray = Ray::new(Vec3::new(0, 0, 0), Vec3::new(0, 0, -SCALE));
    let rec = world.hit(&ray, T_MIN_BOUNCE, T_INF).unwrap();
    assert_eq!(rec.time, 500_000);
    match rec.material {
        Material::Lambertian(l) => assert_eq!(l.albedo, Vec3::new(900_000, 100_000, 100_000)),
        _ => panic!("wrong material variant"),
    }
}

#[test]
fn sphere_roots_outside_the_interval_are_misses() {
    let sphere = Sphere::new(Vec3::new(0, 0, -SCALE), 500_000, gray());
    let ray = Ray::new(Vec3::new(0, 0, 0), Vec3::new(0, 0, -SCALE));
    // both roots (0.5 and 1.5) lie beyond an upper bound of 0.25
    assert!(sphere.hit(&ray, T_MIN_BOUNCE, 250_000).is_none());
    // the lower bound 0.75 skips the near root but catches the far one
    let rec = sphere.hit(&ray, 750_000, T_INF).unwrap();
    assert_eq!(rec.time, 1_500_000);
    // the far hit is seen from inside: the normal is flipped
    assert!(!rec.front_face);
}

#[test]
fn depth_exhaustion_returns_black() {
    let mut rng = new_rng();
    let world = two_sphere_scene();
    let rays = [
        Ray::new(Vec3::new(0, 0, 0), Vec3::new(0, 0, -SCALE)),
        Ray::new(Vec3::new(SCALE, 0, 0), Vec3::new(0, SCALE, 0)),
        Ray::new(Vec3::new(0, -SCALE, 0), Vec3::new(SCALE, SCALE, SCALE)),
    ];
    for ray in rays.iter() {
        assert_eq!(ray_color(ray, &world, 0, &mut rng), Vec3::black());
    }
}

#[test]
fn single_bounce_budget_on_a_hit_is_black() {
    // with a budget of one, any hit scatters into a depth-exhausted
    // estimate, so the attenuated result is black whatever was drawn
    let mut rng = new_rng();
    let world = two_sphere_scene();
    let ray = Ray::new(Vec3::new(0, 0, 0), Vec3::new(0, 0, -SCALE));
    for _ in 0..20 {
        assert_eq!(ray_color(&ray, &world, 1, &mut rng), Vec3::black());
    }
}

#[test]
fn clearing_a_scene_empties_it() {
    let mut world = two_sphere_scene();
    world.clear();
    let ray = Ray::new(Vec3::new(0, 0, 0), Vec3::new(0, 0, -SCALE));
    assert!(world.hit(&ray, T_MIN_BOUNCE, T_INF).is_none());
    let single = HitList::new(Hittable::Sphere(Sphere::new(
        Vec3::new(0, 0, -SCALE),
        500_000,
        gray(),
    )));
    assert!(single.hit(&ray, T_MIN_BOUNCE, T_INF).is_some());
}

#[test]
fn hit_color_is_attenuated_recursively() {
    let mut rng = new_rng();
    let world = two_sphere_scene();
    let ray = Ray::new(Vec3::new(0, 0, 0), Vec3::new(0, 0, -SCALE));
    for _ in 0..20 {
        let c = ray_color(&ray, &world, 4, &mut rng);
        // every channel stays inside the unit box
        assert!((0..=SCALE).contains(&c.x()));
        assert!((0..=SCALE).contains(&c.y()));
        assert!((0..=SCALE).contains(&c.z()));
    }
}
