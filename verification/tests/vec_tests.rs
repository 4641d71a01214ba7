use raytrace::fixed::SCALE;
use raytrace::vec3::{
    cross, dot, linear_to_gamma, random_in_unit_disk, random_in_unit_sphere, random_on_hemisphere,
    random_unit_vector, reflect, refract, unit_vector, Vec3,
};

#[test]
fn accessors_and_zero() {
    let v = Vec3::new();
    assert_eq!(v.x(), 0);
    assert_eq!(v.y(), 0);
    assert_eq!(v.z(), 0);
    let w = Vec3::new_use(1, -2, 3);
    assert_eq!(w.x(), 1);
    assert_eq!(w.y(), -2);
    assert_eq!(w.z(), 3);
}

#[test]
fn arithmetic_is_exact() {
    let a = Vec3::new_use(10000, 20000, -30000);
    let b = Vec3::new_use(5000, -5000, 10000);
    let s = a.add(b);
    assert_eq!((s.x(), s.y(), s.z()), (15000, 15000, -20000));
    let d = a.sub(b);
    assert_eq!((d.x(), d.y(), d.z()), (5000, 25000, -40000));
    let n = a.neg();
    assert_eq!((n.x(), n.y(), n.z()), (-10000, -20000, 30000));
    // component product: 1.0 * 0.5 = 0.5, 2.0 * -0.5 = -1.0, -3.0 * 1.0 = -3.0
    let m = a.mul(b);
    assert_eq!((m.x(), m.y(), m.z()), (5000, -10000, -30000));
    // scalar product by 2.0
    let k = a.scale(20000);
    assert_eq!((k.x(), k.y(), k.z()), (20000, 40000, -60000));
    // scalar quotient by 2.0
    let q = a.div(20000);
    assert_eq!((q.x(), q.y(), q.z()), (5000, 10000, -15000));
}

#[test]
fn truncation_rounds_toward_zero() {
    // 0.0001 * 0.5 rounds to zero from both signs.
    let t = Vec3::new_use(1, -1, 3).scale(5000);
    assert_eq!((t.x(), t.y(), t.z()), (0, 0, 1));
}

#[test]
fn dot_cross_length() {
    let a = Vec3::new_use(10000, 0, 0);
    let b = Vec3::new_use(0, 10000, 0);
    assert_eq!(dot(a, b), 0);
    assert_eq!(dot(a, a), 10000);
    let c = cross(a, b);
    assert_eq!((c.x(), c.y(), c.z()), (0, 0, 10000));
    let v = Vec3::new_use(30000, 40000, 0);
    assert_eq!(v.length_squared(), 250000);
    assert_eq!(v.length(), 50000);
}

#[test]
fn unit_vector_is_exact_on_nice_inputs() {
    let v = Vec3::new_use(30000, 40000, 0);
    let u = unit_vector(v);
    assert_eq!((u.x(), u.y(), u.z()), (6000, 8000, 0));
    let w = unit_vector(Vec3::new_use(0, 0, -70000));
    assert_eq!((w.x(), w.y(), w.z()), (0, 0, -10000));
}

#[test]
fn near_zero_detects_the_zero_cell() {
    assert!(Vec3::new().near_zero());
    assert!(!Vec3::new_use(1, 0, 0).near_zero());
    assert!(!Vec3::new_use(0, -1, 0).near_zero());
}

#[test]
fn reflect_mirrors_exactly() {
    // (1, -1, 0) about the up normal gives (1, 1, 0).
    let v = Vec3::new_use(10000, -10000, 0);
    let n = Vec3::new_use(0, 10000, 0);
    let r = reflect(v, n);
    assert_eq!((r.x(), r.y(), r.z()), (10000, 10000, 0));
}

#[test]
fn refract_at_index_one_is_identity_here() {
    // A unit incoming direction on the grid passes through unchanged.
    let uv = Vec3::new_use(6000, -8000, 0);
    let n = Vec3::new_use(0, 10000, 0);
    let out = refract(uv, n, SCALE);
    assert_eq!((out.x(), out.y(), out.z()), (6000, -8000, 0));
}

#[test]
fn refract_bends_toward_the_normal_entering_glass() {
    // Entering a denser medium, the direction moves toward the normal:
    // the tangential component shrinks by the ratio 1/1.5.
    let uv = Vec3::new_use(6000, -8000, 0);
    let n = Vec3::new_use(0, 10000, 0);
    let ratio = 6666;  // 1 / 1.5 on the grid
    let out = refract(uv, n, ratio);
    assert!(out.x() < 6000 && out.x() > 0);
    assert!(out.y() < 0);
    assert_eq!(out.z(), 0);
}

#[test]
fn gamma_round_trip() {
    assert_eq!(linear_to_gamma(0), 0);
    assert_eq!(linear_to_gamma(-5), 0);
    assert_eq!(linear_to_gamma(-10000), 0);
    // sqrt(0.25) = 0.5, sqrt(1) = 1, sqrt(0.01) = 0.1
    assert_eq!(linear_to_gamma(2500), 5000);
    assert_eq!(linear_to_gamma(10000), 10000);
    assert_eq!(linear_to_gamma(100), 1000);
}

#[test]
fn random_vectors_stay_in_their_regions() {
    for _ in 0..64 {
        let p = random_in_unit_sphere();
        let lq = p.length_squared();
        assert!(1 <= lq && lq < SCALE);

        let d = random_in_unit_disk();
        let lqd = d.length_squared();
        assert!(1 <= lqd && lqd < SCALE);
        assert_eq!(d.z(), 0);

        let u = random_unit_vector();
        let lqu = u.length_squared();
        assert!(9000 < lqu && lqu < 11000);

        let n = Vec3::new_use(0, 10000, 0);
        let h = random_on_hemisphere(n);
        assert!(dot(h, n) >= 0);
    }
}

#[test]
fn random_componentwise_ranges() {
    for _ in 0..64 {
        let v = Vec3::random();
        assert!(0 <= v.x() && v.x() < SCALE);
        assert!(0 <= v.y() && v.y() < SCALE);
        assert!(0 <= v.z() && v.z() < SCALE);
        let w = Vec3::random_2(-20000, 20000);
        assert!(-20000 <= w.x() && w.x() < 20000);
        assert!(-20000 <= w.y() && w.y() < 20000);
        assert!(-20000 <= w.z() && w.z() < 20000);
    }
}
