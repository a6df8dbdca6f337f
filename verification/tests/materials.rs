use rt_weekend::common::fx::SCALE;
use rt_weekend::common::random::new_rng;
use rt_weekend::common::ray::Ray;
use rt_weekend::common::vec3::Vec3;
use rt_weekend::hittable::HitRecord;
use rt_weekend::material::dielectric::Dielectric;
use rt_weekend::material::lambertian::Lambertian;
use rt_weekend::material::metal::Metal;
use rt_weekend::material::Material;

fn record_at(point: Vec3, normal: Vec3, front_face: bool, material: Material) -> HitRecord {
    HitRecord { point, normal, time: SCALE, front_face, material }
}

#[test]
fn lambertian_attenuates_by_albedo_and_starts_at_hit_point() {
    let mut rng = new_rng();
    let albedo = Vec3::new(300_000, 600_000, 900_000);
    let lambertian = Lambertian::new(albedo);
    let ray_in = Ray::new(Vec3::new(0, 0, 0), Vec3::new(0, 0, -SCALE));
    let point = Vec3::new(100_000, 200_000, -SCALE);
    let rec = record_at(point, Vec3::new(0, 0, SCALE), true, Material::Lambertian(lambertian));
    for _ in 0..50 {
        let scatter = lambertian.scatter(&ray_in, &rec, &mut rng).unwrap();
        assert_eq!(scatter.attenuation, albedo);
        assert_eq!(scatter.scattered.origin, point);
        assert!(!scatter.scattered.direction.near_zero());
    }
}

#[test]
fn metal_with_zero_fuzz_mirrors_exactly() {
    let mut rng = new_rng();
    let albedo = Vec3::new(800_000, 800_000, 800_000);
    let metal = Metal::new(albedo, 0);
    // incoming (1, -1, 0), normalized, against normal (0, 1, 0)
    let ray_in = Ray::new(Vec3::new(0, 0, 0), Vec3::new(SCALE, -SCALE, 0));
    let normal = Vec3::new(0, SCALE, 0);
    let point = Vec3::new(SCALE, 0, 0);
    let rec = record_at(point, normal, true, Material::Metal(metal));
    let scatter = metal.scatter(&ray_in, &rec, &mut rng).unwrap();
    // unit incoming = (707107, -707108, 0); reflection flips the y sign
    let incoming_unit = ray_in.direction.unit_vec();
    assert_eq!(incoming_unit, Vec3::new(707_107, -707_108, 0));
    assert_eq!(scatter.scattered.direction, Vec3::new(707_107, 707_108, 0));
    assert_eq!(scatter.attenuation, albedo);
    assert_eq!(scatter.scattered.origin, point);
    // angle of incidence equals angle of reflection, by dot-product symmetry
    assert_eq!(
        scatter.scattered.direction.dot(&normal),
        -incoming_unit.dot(&normal)
    );
}

#[test]
fn metal_fuzz_perturbs_within_the_fuzz_radius() {
    let mut rng = new_rng();
    let albedo = Vec3::new(SCALE, SCALE, SCALE);
    // full fuzz: the scattered direction is the mirror direction plus a
    // unit-ball sample, so each component strays by less than one unit
    let metal = Metal::new(albedo, SCALE);
    let ray_in = Ray::new(Vec3::new(0, 0, 0), Vec3::new(0, -SCALE, 0));
    let normal = Vec3::new(0, SCALE, 0);
    let rec = record_at(Vec3::new(0, 0, 0), normal, true, Material::Metal(metal));
    let mirrored = ray_in.direction.unit_vec().reflect(&normal);
    assert_eq!(mirrored, Vec3::new(0, SCALE, 0));
    for _ in 0..50 {
        if let Some(scatter) = metal.scatter(&ray_in, &rec, &mut rng) {
            let d = scatter.scattered.direction;
            assert!((d.x() - mirrored.x()).abs() < SCALE);
            assert!((d.y() - mirrored.y()).abs() < SCALE);
            assert!((d.z() - mirrored.z()).abs() < SCALE);
            assert!(d.dot(&normal) > 0);
        }
    }
}

#[test]
fn metal_absorbs_rays_reflected_into_the_surface() {
    let mut rng = new_rng();
    let metal = Metal::new(Vec3::new(SCALE, SCALE, SCALE), 0);
    // incoming along the normal from behind: the mirror direction points
    // into the surface, so the scatter is rejected
    let ray_in = Ray::new(Vec3::new(0, 0, 0), Vec3::new(0, SCALE, 0));
    let rec = record_at(
        Vec3::new(0, 0, 0),
        Vec3::new(0, SCALE, 0),
        true,
        Material::Metal(metal),
    );
    assert!(metal.scatter(&ray_in, &rec, &mut rng).is_none());
}

#[test]
fn dielectric_identity_ratio_keeps_direction_at_normal_incidence() {
    let mut rng = new_rng();
    // refraction index 1.0: the ratio is exactly one on the front face
    let glass = Dielectric::new(SCALE);
    let ray_in = Ray::new(Vec3::new(0, 0, SCALE), Vec3::new(0, 0, -SCALE));
    let normal = Vec3::new(0, 0, SCALE);
    let rec = record_at(Vec3::new(0, 0, 0), normal, true, Material::Dielectric(glass));
    for _ in 0..20 {
        let scatter = glass.scatter(&ray_in, &rec, &mut rng).unwrap();
        assert_eq!(scatter.attenuation, Vec3::white());
        assert_eq!(scatter.scattered.origin, Vec3::new(0, 0, 0));
        assert_eq!(scatter.scattered.direction, Vec3::new(0, 0, -SCALE));
    }
}

#[test]
fn refract_with_unit_ratio_is_identity_at_normal_incidence() {
    let u = Vec3::new(0, 0, -SCALE);
    let n = Vec3::new(0, 0, SCALE);
    assert_eq!(u.refract(&n, SCALE), u);
}

#[test]
fn reflect_mirrors_about_the_normal() {
    let v = Vec3::new(SCALE, -SCALE, 0);
    let n = Vec3::new(0, SCALE, 0);
    assert_eq!(v.reflect(&n), Vec3::new(SCALE, SCALE, 0));
}

#[test]
fn material_scatter_dispatches_over_variants() {
    let mut rng = new_rng();
    let albedo = Vec3::new(100_000, 200_000, 300_000);
    let mat = Material::Lambertian(Lambertian::new(albedo));
    let ray_in = Ray::new(Vec3::new(0, 0, 0), Vec3::new(0, 0, -SCALE));
    let rec = record_at(Vec3::new(0, 0, -SCALE), Vec3::new(0, 0, SCALE), true, mat);
    let scatter = mat.scatter(&ray_in, &rec, &mut rng).unwrap();
    assert_eq!(scatter.attenuation, albedo);
}
