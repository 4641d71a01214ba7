use raytrace::camera::Camera;
use raytrace::fixed::SCALE;
use raytrace::hittable::{Hittable, HittableList};
use raytrace::material::{Lambertian, Material};
use raytrace::ray::{Point3, Ray};
use raytrace::sphere::Sphere;
use raytrace::vec3::{color_rgb, Color, Vec3};

fn ground_and_ball() -> Hittable {
    // The two-sphere scene: a ground sphere of radius one hundred half a
    // unit below the origin, and a half-unit sphere one unit into the
    // screen.
    let mut world = HittableList::new();
    world.add(Hittable::Sphere(Sphere::new_use(
        Point3::new_use(0, -1_005_000, 0),
        1_000_000,
        Material::Lambertian(Lambertian::new(Color::new_use(5000, 5000, 5000))),
    )));
    world.add(Hittable::Sphere(Sphere::new_use(
        Point3::new_use(0, 0, -10000),
        5000,
        Material::Lambertian(Lambertian::new(Color::new_use(5000, 5000, 5000))),
    )));
    Hittable::HittableList(world)
}

#[test]
fn depth_zero_returns_black_whatever_the_scene() {
    let world = ground_and_ball();
    let r = Ray::new_use(&Point3::new_use(0, 0, 0), &Vec3::new_use(0, 0, -10000));
    let c = Camera::ray_color(&r, 0, &world);
    assert_eq!((c.x(), c.y(), c.z()), (0, 0, 0));
    let c2 = Camera::ray_color(&r, -3, &world);
    assert_eq!((c2.x(), c2.y(), c2.z()), (0, 0, 0));
}

#[test]
fn missing_rays_reproduce_the_exact_gradient() {
    let world = ground_and_ball();
    // Straight up: pure sky blue.
    let up = Ray::new_use(&Point3::new_use(0, 0, 0), &Vec3::new_use(0, 10000, 0));
    let sky = Camera::ray_color(&up, 5, &world);
    assert_eq!((sky.x(), sky.y(), sky.z()), (5000, 7000, 10000));
    // Horizontal: the halfway blend between white and sky blue.
    let level = Ray::new_use(&Point3::new_use(0, 0, 0), &Vec3::new_use(10000, 0, 0));
    let mid = Camera::ray_color(&level, 5, &world);
    assert_eq!((mid.x(), mid.y(), mid.z()), (7500, 8500, 10000));
}

#[test]
fn gradient_pixels_quantize_to_expected_bytes() {
    // The pure sky color after gamma and quantization.
    let sky = color_rgb(Color::new_use(5000, 7000, 10000), SCALE);
    assert_eq!((sky.r, sky.g, sky.b), (181, 214, 255));
    // Pure white saturates every channel; black stays black.
    let white = color_rgb(Color::new_use(10000, 10000, 10000), SCALE);
    assert_eq!((white.r, white.g, white.b), (255, 255, 255));
    let black = color_rgb(Color::new_use(0, 0, 0), SCALE);
    assert_eq!((black.r, black.g, black.b), (0, 0, 0));
    // Negative radiance is clamped to zero, never wrapped.
    let neg = color_rgb(Color::new_use(-5000, -1, 2500), SCALE);
    assert_eq!((neg.r, neg.g, neg.b), (0, 0, 128));
    // The averaging weight halves a doubled sum.
    let avg = color_rgb(Color::new_use(10000, 14000, 20000), 5000);
    assert_eq!((avg.r, avg.g, avg.b), (181, 214, 255));
}

#[test]
fn initialize_derives_the_book_viewport() {
    let mut cam = Camera::new();
    cam.aspect_ratio = 20000;
    cam.image_width = 4;
    cam.samples_per_pixel = 2;
    cam.max_depth = 3;
    cam.vfov = 900_000;
    cam.lookfrom = Point3::new_use(0, 0, 0);
    cam.lookat = Point3::new_use(0, 0, -10000);
    cam.vup = Vec3::new_use(0, 10000, 0);
    cam.defocus_angle = 0;
    cam.focus_dist = 100_000;
    cam.initialize();

    assert_eq!(cam.image_height, 2);
    assert_eq!(cam.pixel_samples_scale, 5000);
    assert_eq!((cam.w.x(), cam.w.y(), cam.w.z()), (0, 0, 10000));
    assert_eq!((cam.u.x(), cam.u.y(), cam.u.z()), (10000, 0, 0));
    assert_eq!((cam.v.x(), cam.v.y(), cam.v.z()), (0, 10000, 0));
    // Viewport 40 x 20 at focus depth ten: ten units per pixel.
    assert_eq!((cam.pixel_delta_u.x(), cam.pixel_delta_u.y(), cam.pixel_delta_u.z()),
        (100_000, 0, 0));
    assert_eq!((cam.pixel_delta_v.x(), cam.pixel_delta_v.y(), cam.pixel_delta_v.z()),
        (0, -100_000, 0));
    assert_eq!((cam.pixel00_loc.x(), cam.pixel00_loc.y(), cam.pixel00_loc.z()),
        (-150_000, 50_000, -100_000));
    assert_eq!((cam.center.x(), cam.center.y(), cam.center.z()), (0, 0, 0));
}

#[test]
fn get_ray_with_zero_jitter_aims_at_the_pixel_center() {
    let mut cam = Camera::new();
    cam.aspect_ratio = 20000;
    cam.image_width = 4;
    cam.samples_per_pixel = 1;
    cam.max_depth = 1;
    cam.vfov = 900_000;
    cam.lookfrom = Point3::new_use(0, 0, 0);
    cam.lookat = Point3::new_use(0, 0, -10000);
    cam.vup = Vec3::new_use(0, 10000, 0);
    cam.defocus_angle = 0;
    cam.focus_dist = 100_000;
    cam.initialize();

    let zero = Vec3::new_use(0, 0, 0);
    let r = cam.get_ray_with(0, 0, zero, zero);
    assert_eq!((r.origin().x(), r.origin().y(), r.origin().z()), (0, 0, 0));
    assert_eq!((r.direction().x(), r.direction().y(), r.direction().z()),
        (-150_000, 50_000, -100_000));
    // One pixel to the right moves one delta along the horizontal edge.
    let r2 = cam.get_ray_with(1, 0, zero, zero);
    assert_eq!(r2.direction().x(), -50_000);
}

#[test]
fn render_produces_one_pixel_per_grid_cell() {
    let mut cam = Camera::new();
    cam.aspect_ratio = 20000;
    cam.image_width = 4;
    cam.samples_per_pixel = 1;
    cam.max_depth = 2;
    cam.vfov = 900_000;
    cam.lookfrom = Point3::new_use(0, 0, 0);
    cam.lookat = Point3::new_use(0, 0, -10000);
    cam.vup = Vec3::new_use(0, 10000, 0);
    cam.defocus_angle = 0;
    cam.focus_dist = 100_000;

    let world = ground_and_ball();
    let pixels = cam.render(&world);
    assert_eq!(pixels.len(), 8);
}

#[test]
fn render_of_a_sky_only_scene_is_blue_at_the_top() {
    // No geometry at all: every pixel is pure background. A tall narrow
    // image looking at the horizon runs from deep sky at the top toward
    // white at the bottom.
    let mut cam = Camera::new();
    cam.aspect_ratio = 5000;
    cam.image_width = 1;
    cam.samples_per_pixel = 1;
    cam.max_depth = 2;
    cam.vfov = 900_000;
    cam.lookfrom = Point3::new_use(0, 0, 0);
    cam.lookat = Point3::new_use(0, 0, -10000);
    cam.vup = Vec3::new_use(0, 10000, 0);
    cam.defocus_angle = 0;
    cam.focus_dist = 100_000;

    let world = Hittable::HittableList(HittableList::new());
    let pixels = cam.render(&world);
    assert_eq!(pixels.len(), 2);
    // The top pixel looks upward (bluer: red no larger than below), the
    // bottom pixel downward (whiter).
    assert!(pixels[0].r <= pixels[1].r);
    assert_eq!(pixels[0].b, 255);
    assert_eq!(pixels[1].b, 255);
}

#[test]
fn defocus_disk_moves_the_ray_origin() {
    let mut cam = Camera::new();
    cam.aspect_ratio = 20000;
    cam.image_width = 4;
    cam.samples_per_pixel = 1;
    cam.max_depth = 1;
    cam.vfov = 900_000;
    cam.lookfrom = Point3::new_use(0, 0, 0);
    cam.lookat = Point3::new_use(0, 0, -10000);
    cam.vup = Vec3::new_use(0, 10000, 0);
    cam.defocus_angle = 900_000;
    cam.focus_dist = 100_000;
    cam.initialize();

    // The aperture half-angle is 45 degrees, so the disk radius equals
    // the focus distance: ten units along each basis vector.
    assert_eq!((cam.defocus_disk_u.x(), cam.defocus_disk_u.y()), (100_000, 0));
    assert_eq!((cam.defocus_disk_v.x(), cam.defocus_disk_v.y()), (0, 100_000));

    let zero = Vec3::new_use(0, 0, 0);
    let disk = Vec3::new_use(5000, 5000, 0);
    let r = cam.get_ray_with(0, 0, zero, disk);
    assert_eq!((r.origin().x(), r.origin().y(), r.origin().z()), (50_000, 50_000, 0));
}

#[test]
fn end_to_end_two_sphere_scene() {
    // The two-sphere scene at width 400, 16:9, one sample, depth one.
    // Sky rays reproduce the background gradient; rays that strike a
    // surface exhaust the single bounce and come back black.
    let mut cam = Camera::new();
    cam.aspect_ratio = 17_777;
    cam.image_width = 400;
    cam.samples_per_pixel = 1;
    cam.max_depth = 1;
    cam.vfov = 900_000;
    cam.lookfrom = Point3::new_use(0, 0, 0);
    cam.lookat = Point3::new_use(0, 0, -10000);
    cam.vup = Vec3::new_use(0, 10000, 0);
    cam.defocus_angle = 0;
    cam.focus_dist = 100_000;

    let world = ground_and_ball();
    let pixels = cam.render(&world);
    let width = 400usize;
    let height = pixels.len() / width;
    assert_eq!(pixels.len(), width * height);
    assert!(height == 225);

    // Top-left: sky, noticeably blue but far from saturated white.
    let tl = pixels[0];
    assert!(190 <= tl.r && tl.r <= 215);
    assert!(215 <= tl.g && tl.g <= 240);
    assert_eq!(tl.b, 255);

    // The exact center aims at the foreground sphere: the single bounce
    // is spent, so the pixel is black whatever direction was scattered.
    let center = pixels[112 * width + 200];
    assert_eq!((center.r, center.g, center.b), (0, 0, 0));

    // The sky gets bluer toward the top of the image: the top row's red
    // channel is no larger than the row just above the horizon's.
    let near_horizon = pixels[100 * width + 0];
    assert!(tl.r <= near_horizon.r);
}
