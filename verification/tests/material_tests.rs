use raytrace::hittable::HitRecord;
use raytrace::material::{Dielectric, Lambertian, Material, Metal};
use raytrace::ray::{Point3, Ray};
use raytrace::vec3::{dot, Color, Vec3};

fn record_at_origin(normal: Vec3, front_face: bool) -> HitRecord {
    let mut rec = HitRecord::new();
    rec.p = Point3::new_use(0, 0, 0);
    rec.normal = normal;
    rec.t = 10000;
    rec.front_face = front_face;
    rec
}

#[test]
fn lambertian_always_scatters_with_its_albedo() {
    let albedo = Color::new_use(4000, 2000, 1000);
    let l = Lambertian::new(albedo);
    let rec = record_at_origin(Vec3::new_use(0, 10000, 0), true);
    let r_in = Ray::new_use(&Point3::new_use(0, 10000, 10000), &Vec3::new_use(0, -10000, -10000));
    let mut attenuation = Color::new();
    let mut scattered = Ray::new();
    assert!(l.scatter(&r_in, &rec, &mut attenuation, &mut scattered));
    assert_eq!((attenuation.x(), attenuation.y(), attenuation.z()), (4000, 2000, 1000));
    assert_eq!(scattered.origin().x(), 0);
}

#[test]
fn lambertian_offset_adds_to_the_normal() {
    let l = Lambertian::new(Color::new_use(5000, 5000, 5000));
    let rec = record_at_origin(Vec3::new_use(0, 10000, 0), true);
    let mut attenuation = Color::new();
    let mut scattered = Ray::new();
    assert!(l.scatter_with(&rec, Vec3::new_use(3000, 0, 4000), &mut attenuation, &mut scattered));
    let d = *scattered.direction();
    assert_eq!((d.x(), d.y(), d.z()), (3000, 10000, 4000));
}

#[test]
fn lambertian_degenerate_sum_falls_back_to_the_normal() {
    let l = Lambertian::new(Color::new_use(5000, 5000, 5000));
    let rec = record_at_origin(Vec3::new_use(0, 10000, 0), true);
    let mut attenuation = Color::new();
    let mut scattered = Ray::new();
    // The offset exactly cancels the normal.
    assert!(l.scatter_with(&rec, Vec3::new_use(0, -10000, 0), &mut attenuation, &mut scattered));
    let d = *scattered.direction();
    assert_eq!((d.x(), d.y(), d.z()), (0, 10000, 0));
}

#[test]
fn metal_fuzz_is_clamped_at_construction() {
    let c = Color::new_use(7000, 6000, 5000);
    assert_eq!(Metal::new(c, -5).fuzz, 0);
    assert_eq!(Metal::new(c, 20000).fuzz, 10000);
    assert_eq!(Metal::new(c, 700).fuzz, 700);
}

#[test]
fn metal_zero_fuzz_mirrors_exactly() {
    // Incoming (1, -1, 0) off the up normal leaves along (1, 1, 0),
    // normalized on the grid, whatever the random offset would have been.
    let m = Metal::new(Color::new_use(7000, 6000, 5000), 0);
    let rec = record_at_origin(Vec3::new_use(0, 10000, 0), true);
    let r_in = Ray::new_use(&Point3::new_use(-10000, 10000, 0), &Vec3::new_use(10000, -10000, 0));
    let mut attenuation = Color::new();
    let mut scattered = Ray::new();
    let sb = m.scatter_with(&r_in, &rec, Vec3::new_use(2000, 5000, 8000), &mut attenuation,
        &mut scattered);
    assert!(sb);
    let d = *scattered.direction();
    assert_eq!((d.x(), d.y(), d.z()), (7071, 7071, 0));
    assert_eq!((attenuation.x(), attenuation.y(), attenuation.z()), (7000, 6000, 5000));
}

#[test]
fn metal_zero_fuzz_is_draw_independent() {
    // Through the randomized scatter as well: at zero fuzz every draw
    // leads to the same mirrored direction.
    let m = Metal::new(Color::new_use(7000, 6000, 5000), 0);
    let rec = record_at_origin(Vec3::new_use(0, 10000, 0), true);
    let r_in = Ray::new_use(&Point3::new_use(-10000, 10000, 0), &Vec3::new_use(10000, -10000, 0));
    for _ in 0..16 {
        let mut attenuation = Color::new();
        let mut scattered = Ray::new();
        assert!(m.scatter(&r_in, &rec, &mut attenuation, &mut scattered));
        let d = *scattered.direction();
        assert_eq!((d.x(), d.y(), d.z()), (7071, 7071, 0));
    }
}

#[test]
fn metal_absorbs_rays_scattered_into_the_surface() {
    // Full fuzz pointing into the surface defeats the reflection.
    let m = Metal::new(Color::new_use(7000, 6000, 5000), 10000);
    let rec = record_at_origin(Vec3::new_use(0, 10000, 0), true);
    let r_in = Ray::new_use(&Point3::new_use(-10000, 10000, 0), &Vec3::new_use(10000, -10000, 0));
    let mut attenuation = Color::new();
    let mut scattered = Ray::new();
    let sb = m.scatter_with(&r_in, &rec, Vec3::new_use(0, -10000, 0), &mut attenuation,
        &mut scattered);
    // Reflected (0.7071, 0.7071, 0) plus a unit pull straight down:
    // (0.7071, -0.2929, 0) points into the surface, so the ray is absorbed.
    assert!(!sb);
}

#[test]
fn dielectric_index_one_head_on_passes_straight_through() {
    let d = Dielectric::new(10000);
    let rec = record_at_origin(Vec3::new_use(0, 0, 10000), true);
    let r_in = Ray::new_use(&Point3::new_use(0, 0, 10000), &Vec3::new_use(0, 0, -10000));
    let mut attenuation = Color::new();
    let mut scattered = Ray::new();
    assert!(d.scatter_with(&r_in, &rec, 5000, &mut attenuation, &mut scattered));
    let dir = *scattered.direction();
    assert_eq!((dir.x(), dir.y(), dir.z()), (0, 0, -10000));
    assert_eq!((attenuation.x(), attenuation.y(), attenuation.z()), (10000, 10000, 10000));
}

#[test]
fn dielectric_index_one_oblique_passes_straight_through() {
    // cos(theta) = 0.8 exactly on the grid; the draw clears the tiny
    // Schlick term, so refraction at ratio one reproduces the direction.
    let d = Dielectric::new(10000);
    let rec = record_at_origin(Vec3::new_use(0, 10000, 0), true);
    let r_in = Ray::new_use(&Point3::new_use(-6000, 8000, 0), &Vec3::new_use(6000, -8000, 0));
    let mut attenuation = Color::new();
    let mut scattered = Ray::new();
    assert!(d.scatter_with(&r_in, &rec, 5000, &mut attenuation, &mut scattered));
    let dir = *scattered.direction();
    assert_eq!((dir.x(), dir.y(), dir.z()), (6000, -8000, 0));
}

#[test]
fn dielectric_index_one_can_still_reflect_on_a_low_draw() {
    // The same oblique ray with a draw below the Schlick term reflects:
    // this is the stochastic Fresnel choice, not a bend.
    let d = Dielectric::new(10000);
    let rec = record_at_origin(Vec3::new_use(0, 10000, 0), true);
    let r_in = Ray::new_use(&Point3::new_use(-6000, 8000, 0), &Vec3::new_use(6000, -8000, 0));
    let mut attenuation = Color::new();
    let mut scattered = Ray::new();
    assert!(d.scatter_with(&r_in, &rec, 0, &mut attenuation, &mut scattered));
    let dir = *scattered.direction();
    assert_eq!((dir.x(), dir.y(), dir.z()), (6000, 8000, 0));
}

#[test]
fn dielectric_glass_bends_an_oblique_ray() {
    // Entering glass at cos = 0.8 the direction tilts toward the normal.
    let d = Dielectric::new(15000);
    let rec = record_at_origin(Vec3::new_use(0, 10000, 0), true);
    let r_in = Ray::new_use(&Point3::new_use(-6000, 8000, 0), &Vec3::new_use(6000, -8000, 0));
    let mut attenuation = Color::new();
    let mut scattered = Ray::new();
    assert!(d.scatter_with(&r_in, &rec, 9999, &mut attenuation, &mut scattered));
    let dir = *scattered.direction();
    assert!(0 < dir.x() && dir.x() < 6000);
    assert!(dir.y() < 0);
    assert_eq!(dir.z(), 0);
}

#[test]
fn material_dispatch_matches_the_variants() {
    let rec = record_at_origin(Vec3::new_use(0, 10000, 0), true);
    let r_in = Ray::new_use(&Point3::new_use(0, 10000, 0), &Vec3::new_use(0, -10000, 0));
    let mut attenuation = Color::new();
    let mut scattered = Ray::new();

    let lam = Material::Lambertian(Lambertian::new(Color::new_use(1000, 2000, 3000)));
    assert!(lam.scatter(&r_in, &rec, &mut attenuation, &mut scattered));
    assert_eq!(attenuation.x(), 1000);

    let die = Material::Dielectric(Dielectric::new(15000));
    assert!(die.scatter(&r_in, &rec, &mut attenuation, &mut scattered));
    assert_eq!(attenuation.x(), 10000);

    let default_material = Material::new();
    assert!(matches!(default_material, Material::Lambertian(_)));
}
