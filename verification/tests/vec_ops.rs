use rt_weekend::common::fx::SCALE;
use rt_weekend::common::random::{new_rng, range, unit};
use rt_weekend::common::ray::Ray;
use rt_weekend::common::vec3::Vec3;

#[test]
fn add_sub_neg_are_componentwise() {
    let a = Vec3::new(1_000_000, -2_000_000, 3_000_000);
    let b = Vec3::new(500_000, 500_000, -500_000);
    assert_eq!(a.add(&b), Vec3::new(1_500_000, -1_500_000, 2_500_000));
    assert_eq!(a.sub(&b), Vec3::new(500_000, -2_500_000, 3_500_000));
    assert_eq!(a.neg(), Vec3::new(-1_000_000, 2_000_000, -3_000_000));
}

#[test]
fn accessors_return_components() {
    let a = Vec3::new(7, -8, 9);
    assert_eq!(a.x(), 7);
    assert_eq!(a.y(), -8);
    assert_eq!(a.z(), 9);
}

#[test]
fn dot_and_mul_rescale_products() {
    // (1.0, 2.0, 3.0) . (4.0, 5.0, 6.0) = 32.0
    let a = Vec3::new(1_000_000, 2_000_000, 3_000_000);
    let b = Vec3::new(4_000_000, 5_000_000, 6_000_000);
    assert_eq!(a.dot(&b), 32_000_000);
    // component-wise product (4.0, 10.0, 18.0)
    assert_eq!(a.mul(&b), Vec3::new(4_000_000, 10_000_000, 18_000_000));
}

#[test]
fn cross_of_axes_gives_third_axis() {
    let x = Vec3::new(SCALE, 0, 0);
    let y = Vec3::new(0, SCALE, 0);
    let z = Vec3::new(0, 0, SCALE);
    assert_eq!(x.cross(&y), z);
    assert_eq!(y.cross(&z), x);
    assert_eq!(z.cross(&x), y);
}

#[test]
fn cross_is_antisymmetric_even_at_single_quanta() {
    // one quantum per component: with flooring the two sides would differ
    // by a quantum; with the truncating rescale they negate exactly
    let a = Vec3::new(0, 1, 0);
    let b = Vec3::new(0, 0, 1);
    assert_eq!(a.cross(&b), b.cross(&a).neg());
    let c = Vec3::new(123_457, -654_321, 999_999);
    let d = Vec3::new(-777_777, 42, 314_159);
    assert_eq!(c.cross(&d), d.cross(&c).neg());
}

#[test]
fn length_is_floored_euclidean_norm() {
    // |(3.0, 4.0, 0)| = 5.0 exactly
    let a = Vec3::new(3_000_000, 4_000_000, 0);
    assert_eq!(a.length(), 5_000_000);
    // |(1.0, 1.0, 0)| = floor(sqrt(2) * SCALE)
    let b = Vec3::new(1_000_000, 1_000_000, 0);
    assert_eq!(b.length(), 1_414_213);
    assert_eq!(a.length_squared(), 25_000_000);
}

#[test]
fn unit_vec_normalizes_and_zero_stays_zero() {
    let a = Vec3::new(0, 2_000_000, 0);
    assert_eq!(a.unit_vec(), Vec3::new(0, SCALE, 0));
    let zero = Vec3::new(0, 0, 0);
    assert_eq!(zero.unit_vec(), Vec3::new(0, 0, 0));
}

#[test]
fn near_zero_detects_the_zero_vector_only() {
    assert!(Vec3::new(0, 0, 0).near_zero());
    assert!(!Vec3::new(1, 0, 0).near_zero());
    assert!(!Vec3::new(0, 0, -1).near_zero());
}

#[test]
fn ray_at_walks_the_parameter() {
    let ray = Ray::new(Vec3::new(1_000_000, 0, 0), Vec3::new(0, 0, -2_000_000));
    // at t = 0.5: origin + 0.5 * direction
    assert_eq!(ray.at(500_000), Vec3::new(1_000_000, 0, -1_000_000));
    assert_eq!(ray.at(0), Vec3::new(1_000_000, 0, 0));
}

#[test]
fn range_and_unit_sample_within_bounds() {
    let mut rng = new_rng();
    for _ in 0..200 {
        let r = range(&mut rng, -5, 17);
        assert!((-5..17).contains(&r));
        let u = unit(&mut rng);
        assert!((0..SCALE).contains(&u));
    }
}

#[test]
fn samplers_stay_inside_their_domains() {
    let mut rng = new_rng();
    let mut saw_distinct = false;
    let mut first: Option<Vec3> = None;
    for _ in 0..100 {
        let p = Vec3::random_in_unit_sphere(&mut rng);
        let raw = p.x() as i128 * p.x() as i128 + p.y() as i128 * p.y() as i128
            + p.z() as i128 * p.z() as i128;
        assert!(raw < SCALE as i128 * SCALE as i128);
        match first {
            None => first = Some(p),
            Some(f) => {
                if f != p {
                    saw_distinct = true;
                }
            }
        }
        let d = Vec3::random_in_unit_disk(&mut rng);
        assert_eq!(d.z(), 0);
        let raw_d = d.x() as i128 * d.x() as i128 + d.y() as i128 * d.y() as i128;
        assert!(raw_d < SCALE as i128 * SCALE as i128);
        let uvec = Vec3::random_unit_vector(&mut rng);
        assert!(uvec.x().abs() <= SCALE && uvec.y().abs() <= SCALE && uvec.z().abs() <= SCALE);
        // near-unit length: the sampler rejects degenerate tiny samples
        let ulen = uvec.length();
        assert!((SCALE - 10..=SCALE + 200).contains(&ulen));
        let n = Vec3::new(0, SCALE, 0);
        let h = Vec3::random_in_hemisphere(&mut rng, &n);
        let raw_h = h.x() as i128 * h.x() as i128 + h.y() as i128 * h.y() as i128
            + h.z() as i128 * h.z() as i128;
        assert!(raw_h < SCALE as i128 * SCALE as i128);
        // the flip is decided on the raw dot, so the sample never points
        // into the surface
        let raw_dot = h.x() as i128 * n.x() as i128 + h.y() as i128 * n.y() as i128
            + h.z() as i128 * n.z() as i128;
        assert!(raw_dot >= 0);
    }
    // the generator actually varies: a wrapper returning a constant would fail
    assert!(saw_distinct);
}
