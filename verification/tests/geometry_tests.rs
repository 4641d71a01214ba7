use raytrace::hittable::{HitRecord, Hittable, HittableList};
use raytrace::interval::Interval;
use raytrace::material::{Lambertian, Material};
use raytrace::ray::{hit_sphere, ray_color, Point3, Ray};
use raytrace::rtweekend::INFINITY;
use raytrace::sphere::Sphere;
use raytrace::vec3::{dot, Color, Vec3};

fn gray() -> Material {
    Material::Lambertian(Lambertian::new(Color::new_use(5000, 5000, 5000)))
}

#[test]
fn ray_at_walks_the_parameter() {
    let r = Ray::new_use(&Point3::new_use(10000, 0, 0), &Vec3::new_use(0, 0, -10000));
    let p = r.at(20000);
    assert_eq!((p.x(), p.y(), p.z()), (10000, 0, -20000));
    assert_eq!(r.origin().x(), 10000);
    assert_eq!(r.direction().z(), -10000);
}

#[test]
fn ray_default_is_degenerate() {
    let r = Ray::default();
    assert_eq!(r.origin().x(), 0);
    assert_eq!(r.direction().z(), 0);
}

#[test]
fn hit_sphere_returns_the_near_root() {
    // Unit-speed ray down the z axis at a unit sphere three units away:
    // enters at t = 2.
    let center = Point3::new_use(0, 0, -30000);
    let r = Ray::new_use(&Point3::new_use(0, 0, 0), &Vec3::new_use(0, 0, -10000));
    assert_eq!(hit_sphere(center, 10000, r), 20000);
}

#[test]
fn hit_sphere_reports_a_miss_as_minus_one() {
    let center = Point3::new_use(0, 30000, -30000);
    let r = Ray::new_use(&Point3::new_use(0, 0, 0), &Vec3::new_use(0, 0, -10000));
    assert_eq!(hit_sphere(center, 10000, r), -10000);
}

#[test]
fn sphere_hit_from_outside_is_exact() {
    let s = Sphere::new_use(Point3::new_use(0, 0, -30000), 10000, gray());
    let r = Ray::new_use(&Point3::new_use(0, 0, 0), &Vec3::new_use(0, 0, -10000));
    let mut rec = HitRecord::new();
    let hit = s.hit(r, Interval::new_use(10, INFINITY), &mut rec);
    assert!(hit);
    assert_eq!(rec.t, 20000);
    assert_eq!((rec.p.x(), rec.p.y(), rec.p.z()), (0, 0, -20000));
    assert_eq!((rec.normal.x(), rec.normal.y(), rec.normal.z()), (0, 0, 10000));
    assert!(rec.front_face);
    // The hit point sits on the sphere: |p - center|^2 equals radius^2.
    let diff = rec.p.sub(s.center);
    assert_eq!(diff.length_squared(), 10000);
    // Front-facing invariant.
    assert!(dot(rec.normal, *r.direction()) <= 0);
}

#[test]
fn sphere_hit_from_inside_flips_the_normal() {
    let s = Sphere::new_use(Point3::new_use(0, 0, -30000), 10000, gray());
    // Start at the center, look away from the origin.
    let r = Ray::new_use(&Point3::new_use(0, 0, -30000), &Vec3::new_use(0, 0, -10000));
    let mut rec = HitRecord::new();
    let hit = s.hit(r, Interval::new_use(10, INFINITY), &mut rec);
    assert!(hit);
    assert_eq!(rec.t, 10000);
    assert!(!rec.front_face);
    // The stored normal still faces against the incoming ray.
    assert!(dot(rec.normal, *r.direction()) <= 0);
}

#[test]
fn sphere_respects_the_window() {
    let s = Sphere::new_use(Point3::new_use(0, 0, -30000), 10000, gray());
    let r = Ray::new_use(&Point3::new_use(0, 0, 0), &Vec3::new_use(0, 0, -10000));
    let mut rec = HitRecord::new();
    // Window closes before the sphere: no hit, record untouched.
    assert!(!s.hit(r, Interval::new_use(10, 15000), &mut rec));
    assert_eq!(rec.t, 0);
    // Window opens beyond the near root: the far root is taken.
    assert!(s.hit(r, Interval::new_use(25000, INFINITY), &mut rec));
    assert_eq!(rec.t, 40000);
    assert!(!rec.front_face);
}

#[test]
fn list_hit_keeps_the_nearest_and_ignores_order() {
    let a = Hittable::Sphere(Sphere::new_use(Point3::new_use(0, 0, -50000), 10000, gray()));
    let b = Hittable::Sphere(Sphere::new_use(Point3::new_use(0, 0, -100000), 10000, gray()));
    let r = Ray::new_use(&Point3::new_use(0, 0, 0), &Vec3::new_use(0, 0, -10000));

    let mut forward = HittableList::new();
    forward.add(a);
    forward.add(b);
    let mut rec = HitRecord::new();
    assert!(forward.hit(r, Interval::new_use(10, INFINITY), &mut rec));
    assert_eq!(rec.t, 40000);

    let a2 = Hittable::Sphere(Sphere::new_use(Point3::new_use(0, 0, -50000), 10000, gray()));
    let b2 = Hittable::Sphere(Sphere::new_use(Point3::new_use(0, 0, -100000), 10000, gray()));
    let mut reversed = HittableList::new();
    reversed.add(b2);
    reversed.add(a2);
    let mut rec2 = HitRecord::new();
    assert!(reversed.hit(r, Interval::new_use(10, INFINITY), &mut rec2));
    assert_eq!(rec2.t, 40000);
    assert_eq!(rec2.p.z(), rec.p.z());
}

#[test]
fn empty_list_misses_and_clear_empties() {
    let mut l = HittableList::new();
    let r = Ray::new_use(&Point3::new_use(0, 0, 0), &Vec3::new_use(0, 0, -10000));
    let mut rec = HitRecord::new();
    assert!(!l.hit(r, Interval::new_use(10, INFINITY), &mut rec));
    l.new_use(Hittable::Sphere(Sphere::new_use(Point3::new_use(0, 0, -50000), 10000, gray())));
    assert!(l.hit(r, Interval::new_use(10, INFINITY), &mut rec));
    l.clear();
    let mut rec2 = HitRecord::new();
    assert!(!l.hit(r, Interval::new_use(10, INFINITY), &mut rec2));
}

#[test]
fn nested_lists_intersect_too() {
    let inner_sphere =
        Hittable::Sphere(Sphere::new_use(Point3::new_use(0, 0, -50000), 10000, gray()));
    let mut inner = HittableList::new();
    inner.add(inner_sphere);
    let mut outer = HittableList::new();
    outer.add(Hittable::HittableList(inner));
    let world = Hittable::HittableList(outer);
    let r = Ray::new_use(&Point3::new_use(0, 0, 0), &Vec3::new_use(0, 0, -10000));
    let mut rec = HitRecord::new();
    assert!(world.hit(r, Interval::new_use(10, INFINITY), &mut rec));
    assert_eq!(rec.t, 40000);
}

#[test]
fn standalone_shading_hits_and_misses() {
    // A ray straight at the fixed sphere is shaded by its normal:
    // n = (0, 0, 1), shade = ((n + 1) / 2) = (0.5, 0.5, 1).
    let towards = Ray::new_use(&Point3::new_use(0, 0, 0), &Vec3::new_use(0, 0, -10000));
    let c = ray_color(&towards);
    assert_eq!((c.x(), c.y(), c.z()), (5000, 5000, 10000));

    // A ray straight up misses and shows the pure sky color.
    let up = Ray::new_use(&Point3::new_use(0, 0, 0), &Vec3::new_use(0, 10000, 0));
    let sky = ray_color(&up);
    assert_eq!((sky.x(), sky.y(), sky.z()), (5000, 7000, 10000));

    // A horizontal ray misses and blends the gradient halfway.
    let level = Ray::new_use(&Point3::new_use(0, 0, 0), &Vec3::new_use(10000, 0, 0));
    let mid = ray_color(&level);
    assert_eq!((mid.x(), mid.y(), mid.z()), (7500, 8500, 10000));
}

#[test]
fn interval_membership_and_clamp() {
    let i = Interval::new_use(-10000, 10000);
    assert!(i.contains(-10000) && i.contains(10000) && i.contains(0));
    assert!(!i.contains(10001));
    assert!(i.surrounds(0) && !i.surrounds(10000) && !i.surrounds(-10000));
    assert_eq!(i.size(), 20000);
    assert_eq!(i.clamp(25000), 10000);
    assert_eq!(i.clamp(-25000), -10000);
    assert_eq!(i.clamp(3), 3);
    let empty = Interval::new();
    assert!(!empty.contains(0));
    let dflt = Interval::default();
    assert!(!dflt.surrounds(0));
    let e = Interval::empty();
    assert!(!e.contains(0) && !e.contains(i64::MAX) && !e.contains(i64::MIN));
    let u = Interval::universal();
    assert!(u.contains(0) && u.contains(-40_000_000_000) && u.contains(40_000_000_000));
}
