//! The camera: viewport and defocus-disk geometry derived once from the
//! configuration, jittered per-pixel ray generation, and the recursive
//! radiance evaluation that drives a render.

use crate::fixed::{
    abs_s, fx_div, fx_div_s, fx_mul, fx_mul_s, lemma_fxmul_bound, lemma_fxmul_monotone,
    lemma_tdiv_abs, lemma_tdiv_bound, tdiv64, tdiv_s, SCALE,
};
use crate::hittable::{hit_args_ok, hit_s, hittable_wf, HitRecS, HitRecord, Hittable};
use crate::interval::Interval;
use crate::material::{
    dielectric_dir_s, lambertian_dir_s, metal_dir_s, scatter_outcome_s, Material,
};
use crate::ray::{background, background_s, Point3, Ray};
use crate::rtweekend::{deg2rad_s, degrees_to_radians, random_double, tan_fx, tan_fx_s, INFINITY};
use crate::vec3::{
    cbound, channel_byte_s, color_rgb, cross, cross_s, is_unit_sample, lensq_s,
    random_in_unit_disk, unit_s, unit_vector, vadd, vdiv, vmul, vneg, vscale, vsub, Color, Rgb,
    Vec3, Vec3i,
};
use vstd::arithmetic::div_mod::{
    lemma_div_is_ordered, lemma_div_is_ordered_by_denominator, lemma_div_pos_is_pos,
    lemma_fundamental_div_mod_converse,
};
use vstd::prelude::*;

verus! {

/// The render configuration and, after `initialize`, the derived viewport
/// state. Angles are grid degrees; distances are grid lengths.
pub struct Camera {
    pub aspect_ratio: i64,
    pub image_width: i64,
    pub samples_per_pixel: i64,
    pub max_depth: i64,
    pub vfov: i64,
    pub lookfrom: Point3,
    pub lookat: Point3,
    pub vup: Vec3,
    pub defocus_angle: i64,
    pub focus_dist: i64,
    pub image_height: i64,
    pub pixel_samples_scale: i64,
    pub center: Point3,
    pub pixel00_loc: Point3,
    pub pixel_delta_u: Vec3,
    pub pixel_delta_v: Vec3,
    pub u: Vec3,
    pub v: Vec3,
    pub w: Vec3,
    pub defocus_disk_u: Vec3,
    pub defocus_disk_v: Vec3,
}

/// A valid configuration: positive bounded parameters, distinct look
/// points, and an up vector that is not parallel to the view direction.
pub open spec fn camera_wf(c: Camera) -> bool {
    &&& 100 <= c.aspect_ratio <= 1_000_000
    &&& 1 <= c.image_width <= 4000
    &&& 1 <= c.samples_per_pixel <= 10_000
    &&& 0 <= c.max_depth <= 1000
    &&& 1 <= c.vfov <= 1_700_000
    &&& cbound(c.lookfrom@, 100_000_000)
    &&& cbound(c.lookat@, 100_000_000)
    &&& cbound(c.vup@, 100_000_000)
    &&& lensq_s(vsub(c.lookfrom@, c.lookat@)) >= 1
    &&& lensq_s(cross_s(c.vup@, unit_s(vsub(c.lookfrom@, c.lookat@)))) >= 1
    &&& 0 <= c.defocus_angle <= 1_700_000
    &&& 1 <= c.focus_dist <= 10_000_000
}

/// Image height: width over aspect ratio, floored to at least one pixel.
pub open spec fn image_height_s(c: Camera) -> int {
    let ih = tdiv_s(c.image_width * SCALE, c.aspect_ratio as int);
    if ih < 1 {
        1
    } else {
        ih
    }
}

/// The per-sample color weight `1 / samples_per_pixel`.
pub open spec fn ps_scale_s(c: Camera) -> int {
    fx_div_s(SCALE as int, c.samples_per_pixel * SCALE)
}

/// Half the vertical field of view, in grid radians.
pub open spec fn theta_half_s(c: Camera) -> int {
    tdiv_s(deg2rad_s(c.vfov as int), 2)
}

pub open spec fn viewport_height_s(c: Camera) -> int {
    fx_mul_s(2 * tan_fx_s(theta_half_s(c)), c.focus_dist as int)
}

/// The basis vector pointing from the target back to the camera.
pub open spec fn w_basis_s(c: Camera) -> Vec3i {
    unit_s(vsub(c.lookfrom@, c.lookat@))
}

/// The basis vector pointing to the camera's right.
pub open spec fn u_basis_s(c: Camera) -> Vec3i {
    unit_s(cross_s(c.vup@, w_basis_s(c)))
}

/// The basis vector pointing up in camera space.
pub open spec fn v_basis_s(c: Camera) -> Vec3i {
    cross_s(w_basis_s(c), u_basis_s(c))
}

pub open spec fn viewport_width_s(c: Camera) -> int {
    fx_mul_s(
        viewport_height_s(c),
        fx_div_s(c.image_width * SCALE, image_height_s(c) * SCALE),
    )
}

pub open spec fn viewport_u_s(c: Camera) -> Vec3i {
    vscale(u_basis_s(c), viewport_width_s(c))
}

/// The vertical viewport edge runs downward: row zero is the top row.
pub open spec fn viewport_v_s(c: Camera) -> Vec3i {
    vscale(vneg(v_basis_s(c)), viewport_height_s(c))
}

pub open spec fn pixel_delta_u_s(c: Camera) -> Vec3i {
    vdiv(viewport_u_s(c), c.image_width * SCALE)
}

pub open spec fn pixel_delta_v_s(c: Camera) -> Vec3i {
    vdiv(viewport_v_s(c), image_height_s(c) * SCALE)
}

/// The center of the upper-left pixel.
pub open spec fn pixel00_s(c: Camera) -> Vec3i {
    let upper_left = vsub(
        vsub(
            vsub(c.lookfrom@, vscale(w_basis_s(c), c.focus_dist as int)),
            vdiv(viewport_u_s(c), 2 * SCALE),
        ),
        vdiv(viewport_v_s(c), 2 * SCALE),
    );
    vadd(upper_left, vscale(vadd(pixel_delta_u_s(c), pixel_delta_v_s(c)), 5000))
}

pub open spec fn defocus_radius_s(c: Camera) -> int {
    fx_mul_s(c.focus_dist as int, tan_fx_s(deg2rad_s(tdiv_s(c.defocus_angle as int, 2))))
}

pub open spec fn defocus_disk_u_s(c: Camera) -> Vec3i {
    vscale(u_basis_s(c), defocus_radius_s(c))
}

pub open spec fn defocus_disk_v_s(c: Camera) -> Vec3i {
    vscale(v_basis_s(c), defocus_radius_s(c))
}

/// The derived state is bounded tightly enough for ray generation.
pub open spec fn derived_ok(c: Camera) -> bool {
    &&& 1 <= c.image_width <= 4000
    &&& 1 <= c.image_height <= 400_000
    &&& 1 <= c.samples_per_pixel <= 10_000
    &&& 0 <= c.max_depth <= 1000
    &&& 0 <= c.pixel_samples_scale <= SCALE
    &&& cbound(c.center@, 100_000_000)
    &&& cbound(c.pixel00_loc@, 100_000_000_000_000)
    &&& cbound(c.pixel_delta_u@, 100_000_000_000_000)
    &&& cbound(c.pixel_delta_v@, 100_000_000_000)
    &&& cbound(c.defocus_disk_u@, 10_000_000_000)
    &&& cbound(c.defocus_disk_v@, 10_000_000_000)
}

/// The jittered viewport point sampled for pixel `(i, j)`.
pub open spec fn pixel_sample_s(c: Camera, i: int, j: int, offset: Vec3i) -> Vec3i {
    vadd(
        vadd(c.pixel00_loc@, vscale(c.pixel_delta_u@, i * SCALE + offset.x)),
        vscale(c.pixel_delta_v@, j * SCALE + offset.y),
    )
}

/// The ray origin: the camera center, or a point on the defocus disk.
pub open spec fn ray_origin_s(c: Camera, disk: Vec3i) -> Vec3i {
    if c.defocus_angle <= 0 {
        c.center@
    } else {
        vadd(
            vadd(c.center@, vscale(c.defocus_disk_u@, disk.x)),
            vscale(c.defocus_disk_v@, disk.y),
        )
    }
}

pub open spec fn ray_dir_s(c: Camera, i: int, j: int, offset: Vec3i, disk: Vec3i) -> Vec3i {
    vsub(pixel_sample_s(c, i, j, offset), ray_origin_s(c, disk))
}

/// A nonnegative numerator bounded by `m`, divided by a denominator of at
/// least `dmin`, stays within `m / dmin`.
proof fn lemma_tdiv_denominator_bound(n: int, d: int, dmin: int, m: int)
    requires
        1 <= dmin <= d,
        0 <= n <= m,
    ensures
        0 <= tdiv_s(n, d) <= m / dmin,
{
    lemma_tdiv_abs(n, d);
    lemma_div_pos_is_pos(n, d);
    lemma_div_is_ordered_by_denominator(n, dmin, d);
    lemma_div_is_ordered(n, m, dmin);
}


/// The orthonormal camera basis from the two look points and the up
/// vector: `w` back toward the camera, `u` to the right, `v` up.
fn compute_basis(lookfrom: Point3, lookat: Point3, vup: Vec3) -> (b: (Vec3, Vec3, Vec3))
    requires
        cbound(lookfrom@, 100_000_000),
        cbound(lookat@, 100_000_000),
        cbound(vup@, 100_000_000),
        lensq_s(vsub(lookfrom@, lookat@)) >= 1,
        lensq_s(cross_s(vup@, unit_s(vsub(lookfrom@, lookat@)))) >= 1,
    ensures
        b.0@ == unit_s(vsub(lookfrom@, lookat@)),
        b.1@ == unit_s(cross_s(vup@, b.0@)),
        b.2@ == cross_s(b.0@, b.1@),
        cbound(b.0@, 20_000),
        cbound(b.1@, 20_000),
        cbound(b.2@, 80_000),
{
    let look_diff = lookfrom.sub(lookat);
    let wv = unit_vector(look_diff);
    proof {
        lemma_fxmul_bound(vup@.y, wv@.z, 100_000_000int, 20_000int);
        lemma_fxmul_bound(vup@.z, wv@.y, 100_000_000int, 20_000int);
        lemma_fxmul_bound(vup@.z, wv@.x, 100_000_000int, 20_000int);
        lemma_fxmul_bound(vup@.x, wv@.z, 100_000_000int, 20_000int);
        lemma_fxmul_bound(vup@.x, wv@.y, 100_000_000int, 20_000int);
        lemma_fxmul_bound(vup@.y, wv@.x, 100_000_000int, 20_000int);
    }
    let cu = cross(vup, wv);
    let uv = unit_vector(cu);
    proof {
        lemma_fxmul_bound(wv@.y, uv@.z, 20_000int, 20_000int);
        lemma_fxmul_bound(wv@.z, uv@.y, 20_000int, 20_000int);
        lemma_fxmul_bound(wv@.z, uv@.x, 20_000int, 20_000int);
        lemma_fxmul_bound(wv@.x, uv@.z, 20_000int, 20_000int);
        lemma_fxmul_bound(wv@.x, uv@.y, 20_000int, 20_000int);
        lemma_fxmul_bound(wv@.y, uv@.x, 20_000int, 20_000int);
    }
    let vv = cross(wv, uv);
    (wv, uv, vv)
}

/// The tangent of half an angle given in grid degrees, halved after the
/// conversion to radians, as the field of view is.
fn tan_half_after(deg: i64) -> (t: i64)
    requires
        1 <= deg <= 1_700_000,
    ensures
        t == tan_fx_s(tdiv_s(deg2rad_s(deg as int), 2)),
        abs_s(t as int) <= 1_000_000,
{
    proof {
        lemma_tdiv_abs(0, SCALE as int);
        lemma_fxmul_monotone(deg as int, 0, crate::rtweekend::PI as int);
        lemma_fxmul_bound(deg as int, crate::rtweekend::PI as int, 1_700_000int, 31_416int);
        lemma_tdiv_denominator_bound(
            fx_mul_s(deg as int, crate::rtweekend::PI as int) * (SCALE as int),
            1_800_000int,
            1_800_000int,
            53_407_200_000int,
        );
    }
    let theta = degrees_to_radians(deg);
    let half_theta = tdiv64(theta, 2);
    proof {
        lemma_tdiv_abs(theta as int, 2);
        lemma_tdiv_bound(theta as int, 2, 29_671int);
    }
    tan_fx(half_theta)
}

/// The tangent of half an angle given in grid degrees, halved before the
/// conversion to radians, as the defocus angle is.
fn tan_of_half_deg(deg: i64) -> (t: i64)
    requires
        0 <= deg <= 1_700_000,
    ensures
        t == tan_fx_s(deg2rad_s(tdiv_s(deg as int, 2))),
        abs_s(t as int) <= 1_000_000,
{
    let half_angle = tdiv64(deg, 2);
    proof {
        lemma_tdiv_abs(deg as int, 2);
        lemma_tdiv_bound(deg as int, 2, 1_700_000int);
        lemma_tdiv_abs(0, SCALE as int);
        lemma_fxmul_monotone(half_angle as int, 0, crate::rtweekend::PI as int);
        lemma_fxmul_bound(half_angle as int, crate::rtweekend::PI as int, 850_000int, 31_416int);
        lemma_tdiv_denominator_bound(
            fx_mul_s(half_angle as int, crate::rtweekend::PI as int) * (SCALE as int),
            1_800_000int,
            1_800_000int,
            26_703_600_000int,
        );
    }
    let rad = degrees_to_radians(half_angle);
    tan_fx(rad)
}


/// The pixel grid geometry: the two pixel delta vectors and the center of
/// the upper-left pixel, from the camera basis and viewport dimensions.
#[verifier::rlimit(100)]
fn compute_pixel_geometry(
    center: Point3,
    wv: Vec3,
    uv: Vec3,
    vv: Vec3,
    focus_dist: i64,
    viewport_height: i64,
    viewport_width: i64,
    width_fx: i64,
    height_fx: i64,
) -> (g: (Vec3, Vec3, Vec3))
    requires
        cbound(center@, 100_000_000),
        cbound(wv@, 20_000),
        cbound(uv@, 20_000),
        cbound(vv@, 80_000),
        1 <= focus_dist <= 10_000_000,
        abs_s(viewport_height as int) <= 2_000_000_000,
        abs_s(viewport_width as int) <= 8_000_000_000_000,
        10_000 <= width_fx <= 40_000_000,
        10_000 <= height_fx <= 4_000_000_000,
    ensures
        ({
            let vu = vscale(uv@, viewport_width as int);
            let vdown = vscale(vneg(vv@), viewport_height as int);
            let du = vdiv(vu, width_fx as int);
            let dv = vdiv(vdown, height_fx as int);
            let ul = vsub(
                vsub(
                    vsub(center@, vscale(wv@, focus_dist as int)),
                    vdiv(vu, 2 * SCALE),
                ),
                vdiv(vdown, 2 * SCALE),
            );
            &&& g.0@ == du
            &&& g.1@ == dv
            &&& g.2@ == vadd(ul, vscale(vadd(du, dv), 5000))
        }),
        cbound(g.0@, 100_000_000_000_000),
        cbound(g.1@, 100_000_000_000),
        cbound(g.2@, 100_000_000_000_000),
{
    proof {
        lemma_fxmul_bound(viewport_width as int, uv@.x, 8_000_000_000_000int, 20_000int);
        lemma_fxmul_bound(viewport_width as int, uv@.y, 8_000_000_000_000int, 20_000int);
        lemma_fxmul_bound(viewport_width as int, uv@.z, 8_000_000_000_000int, 20_000int);
        lemma_fxmul_bound(viewport_height as int, -vv@.x, 2_000_000_000int, 80_000int);
        lemma_fxmul_bound(viewport_height as int, -vv@.y, 2_000_000_000int, 80_000int);
        lemma_fxmul_bound(viewport_height as int, -vv@.z, 2_000_000_000int, 80_000int);
    }
    let viewport_u = uv.scale(viewport_width);
    let viewport_v = vv.neg().scale(viewport_height);

    proof {
        lemma_tdiv_denominator_bound_abs(viewport_u@.x * (SCALE as int), width_fx as int,
            SCALE as int, 160_000_000_000_000_000int);
        lemma_tdiv_denominator_bound_abs(viewport_u@.y * (SCALE as int), width_fx as int,
            SCALE as int, 160_000_000_000_000_000int);
        lemma_tdiv_denominator_bound_abs(viewport_u@.z * (SCALE as int), width_fx as int,
            SCALE as int, 160_000_000_000_000_000int);
        lemma_tdiv_denominator_bound_abs(viewport_v@.x * (SCALE as int), height_fx as int,
            SCALE as int, 160_000_000_000_000int);
        lemma_tdiv_denominator_bound_abs(viewport_v@.y * (SCALE as int), height_fx as int,
            SCALE as int, 160_000_000_000_000int);
        lemma_tdiv_denominator_bound_abs(viewport_v@.z * (SCALE as int), height_fx as int,
            SCALE as int, 160_000_000_000_000int);
    }
    let pixel_delta_u = viewport_u.div(width_fx);
    let pixel_delta_v = viewport_v.div(height_fx);

    proof {
        lemma_fxmul_bound(focus_dist as int, wv@.x, 10_000_000int, 20_000int);
        lemma_fxmul_bound(focus_dist as int, wv@.y, 10_000_000int, 20_000int);
        lemma_fxmul_bound(focus_dist as int, wv@.z, 10_000_000int, 20_000int);
        lemma_tdiv_denominator_bound_abs(viewport_u@.x * (SCALE as int), 2 * SCALE, 2 * SCALE,
            160_000_000_000_000_000int);
        lemma_tdiv_denominator_bound_abs(viewport_u@.y * (SCALE as int), 2 * SCALE, 2 * SCALE,
            160_000_000_000_000_000int);
        lemma_tdiv_denominator_bound_abs(viewport_u@.z * (SCALE as int), 2 * SCALE, 2 * SCALE,
            160_000_000_000_000_000int);
        lemma_tdiv_denominator_bound_abs(viewport_v@.x * (SCALE as int), 2 * SCALE, 2 * SCALE,
            160_000_000_000_000int);
        lemma_tdiv_denominator_bound_abs(viewport_v@.y * (SCALE as int), 2 * SCALE, 2 * SCALE,
            160_000_000_000_000int);
        lemma_tdiv_denominator_bound_abs(viewport_v@.z * (SCALE as int), 2 * SCALE, 2 * SCALE,
            160_000_000_000_000int);
    }
    let viewport_upper_left = center
        .sub(wv.scale(focus_dist))
        .sub(viewport_u.div(2 * SCALE))
        .sub(viewport_v.div(2 * SCALE));
    let delta_sum = pixel_delta_u.add(pixel_delta_v);
    proof {
        lemma_fxmul_bound(5000, delta_sum@.x, 5000, 110_000_000_000_000int);
        lemma_fxmul_bound(5000, delta_sum@.y, 5000, 110_000_000_000_000int);
        lemma_fxmul_bound(5000, delta_sum@.z, 5000, 110_000_000_000_000int);
    }
    let pixel00_loc = viewport_upper_left.add(delta_sum.scale(5000));
    (pixel_delta_u, pixel_delta_v, pixel00_loc)
}

impl Camera {
    /// The default configuration: a square hundred-pixel image, ten
    /// samples, depth ten, a ninety degree field of view looking down the
    /// negative z axis, no defocus.
    pub fn new() -> (c: Self)
        ensures
            c.aspect_ratio == SCALE,
            c.image_width == 100,
            c.samples_per_pixel == 10,
            c.max_depth == 10,
            c.vfov == 900_000,
            c.lookfrom@ == (Vec3i { x: 0int, y: 0int, z: 0int }),
            c.lookat@ == (Vec3i { x: 0int, y: 0int, z: -(SCALE as int) }),
            c.vup@ == (Vec3i { x: 0int, y: SCALE as int, z: 0int }),
            c.defocus_angle == 0,
            c.focus_dist == 100_000,
    {
        Camera {
            aspect_ratio: SCALE,
            image_width: 100,
            samples_per_pixel: 10,
            max_depth: 10,
            vfov: 900_000,
            lookfrom: Point3::new_use(0, 0, 0),
            lookat: Point3::new_use(0, 0, -SCALE),
            vup: Vec3::new_use(0, SCALE, 0),
            defocus_angle: 0,
            focus_dist: 100_000,
            image_height: 0,
            pixel_samples_scale: 0,
            center: Point3::new(),
            pixel00_loc: Point3::new(),
            pixel_delta_u: Vec3::new(),
            pixel_delta_v: Vec3::new(),
            u: Vec3::new(),
            v: Vec3::new(),
            w: Vec3::new(),
            defocus_disk_u: Vec3::new(),
            defocus_disk_v: Vec3::new(),
        }
    }

    /// Compute the derived viewport state from the configuration. Safe to
    /// run again: it reads only configuration fields.
    #[verifier::rlimit(100)]
    pub fn initialize(&mut self)
        requires
            camera_wf(*old(self)),
        ensures
            final(self).aspect_ratio == old(self).aspect_ratio,
            final(self).image_width == old(self).image_width,
            final(self).samples_per_pixel == old(self).samples_per_pixel,
            final(self).max_depth == old(self).max_depth,
            final(self).vfov == old(self).vfov,
            final(self).lookfrom == old(self).lookfrom,
            final(self).lookat == old(self).lookat,
            final(self).vup == old(self).vup,
            final(self).defocus_angle == old(self).defocus_angle,
            final(self).focus_dist == old(self).focus_dist,
            final(self).image_height == image_height_s(*old(self)),
            final(self).pixel_samples_scale == ps_scale_s(*old(self)),
            final(self).center == old(self).lookfrom,
            final(self).w@ == w_basis_s(*old(self)),
            final(self).u@ == u_basis_s(*old(self)),
            final(self).v@ == v_basis_s(*old(self)),
            final(self).pixel_delta_u@ == pixel_delta_u_s(*old(self)),
            final(self).pixel_delta_v@ == pixel_delta_v_s(*old(self)),
            final(self).pixel00_loc@ == pixel00_s(*old(self)),
            final(self).defocus_disk_u@ == defocus_disk_u_s(*old(self)),
            final(self).defocus_disk_v@ == defocus_disk_v_s(*old(self)),
            derived_ok(*final(self)),
            camera_wf(*final(self)),
    {
        proof {
            lemma_tdiv_denominator_bound(
                (self.image_width * SCALE) as int,
                self.aspect_ratio as int,
                100,
                40_000_000int,
            );
        }
        let ih = tdiv64(self.image_width * SCALE, self.aspect_ratio);
        self.image_height = if ih < 1 {
            1
        } else {
            ih
        };

        proof {
            lemma_tdiv_denominator_bound(
                (SCALE as int) * (SCALE as int),
                (self.samples_per_pixel * SCALE) as int,
                SCALE as int,
                100_000_000int,
            );
        }
        self.pixel_samples_scale = fx_div(SCALE, self.samples_per_pixel * SCALE);

        self.center = self.lookfrom;

        // Determine viewport dimensions.
        let h = tan_half_after(self.vfov);
        proof {
            lemma_fxmul_bound(2 * (h as int), self.focus_dist as int, 2_000_000int,
                10_000_000int);
        }
        let viewport_height = fx_mul(2 * h, self.focus_dist);

        // Calculate the orthonormal camera basis.
        let basis = compute_basis(self.lookfrom, self.lookat, self.vup);
        let wv = basis.0;
        let uv = basis.1;
        let vv = basis.2;
        self.w = wv;
        self.u = uv;
        self.v = vv;

        proof {
            lemma_tdiv_denominator_bound(
                ((self.image_width * SCALE) as int) * (SCALE as int),
                (self.image_height * SCALE) as int,
                SCALE as int,
                400_000_000_000int,
            );
        }
        let ratio = fx_div(self.image_width * SCALE, self.image_height * SCALE);
        proof {
            lemma_fxmul_bound(viewport_height as int, ratio as int, 2_000_000_000int,
                40_000_000int);
        }
        let viewport_width = fx_mul(viewport_height, ratio);

        // The viewport edges, pixel deltas and upper-left pixel center.
        let geometry = compute_pixel_geometry(
            self.center,
            wv,
            uv,
            vv,
            self.focus_dist,
            viewport_height,
            viewport_width,
            self.image_width * SCALE,
            self.image_height * SCALE,
        );
        self.pixel_delta_u = geometry.0;
        self.pixel_delta_v = geometry.1;
        self.pixel00_loc = geometry.2;

        // The defocus disk basis vectors.
        let dtan = tan_of_half_deg(self.defocus_angle);
        proof {
            lemma_fxmul_bound(self.focus_dist as int, dtan as int, 10_000_000int, 1_000_000int);
        }
        let defocus_radius = fx_mul(self.focus_dist, dtan);
        proof {
            lemma_fxmul_bound(defocus_radius as int, uv@.x, 1_000_000_000int, 20_000int);
            lemma_fxmul_bound(defocus_radius as int, uv@.y, 1_000_000_000int, 20_000int);
            lemma_fxmul_bound(defocus_radius as int, uv@.z, 1_000_000_000int, 20_000int);
            lemma_fxmul_bound(defocus_radius as int, vv@.x, 1_000_000_000int, 80_000int);
            lemma_fxmul_bound(defocus_radius as int, vv@.y, 1_000_000_000int, 80_000int);
            lemma_fxmul_bound(defocus_radius as int, vv@.z, 1_000_000_000int, 80_000int);
        }
        self.defocus_disk_u = uv.scale(defocus_radius);
        self.defocus_disk_v = vv.scale(defocus_radius);
    }
}

/// Like the denominator bound, for numerators of either sign.
proof fn lemma_tdiv_denominator_bound_abs(n: int, d: int, dmin: int, m: int)
    requires
        1 <= dmin <= d,
        abs_s(n) <= m,
    ensures
        abs_s(tdiv_s(n, d)) <= m / dmin,
{
    lemma_tdiv_abs(n, d);
    lemma_div_pos_is_pos(abs_s(n), d);
    lemma_div_is_ordered_by_denominator(abs_s(n), dmin, d);
    lemma_div_is_ordered(abs_s(n), m, dmin);
    lemma_div_pos_is_pos(m, dmin);
}


/// The radiance values the recursive evaluation can return for a ray: black
/// once the bounce budget is spent or the ray leaves the grid model; the
/// background gradient on a miss; and on a hit, black (absorption) or a
/// possible scatter outcome's attenuation times a possible recursive
/// radiance of the scattered ray.
pub open spec fn possible_color_s(r: Ray, depth: int, world: Hittable, c: Vec3i) -> bool
    decreases depth, 1int,
{
    let black = Vec3i { x: 0int, y: 0int, z: 0int };
    if depth <= 0 {
        c == black
    } else if !(cbound(r.orig@, 100_000_000) && cbound(r.dir@, 100_000_000) && lensq_s(r.dir@)
        >= 1) {
        c == black
    } else {
        let h = hit_s(world, r, 10, INFINITY as int);
        if h.is_none() {
            c == background_s(r.dir@)
        } else {
            c == black || possible_bounce_s(h.unwrap(), r, depth, world, c)
        }
    }
}

/// One possible scattered bounce at the hit `rec`: a scattered ray from
/// the hit point whose direction the material's law allows, evaluated
/// recursively and attenuated.
pub open spec fn possible_bounce_s(
    rec: HitRecS,
    r: Ray,
    depth: int,
    world: Hittable,
    c: Vec3i,
) -> bool
    decreases depth, 0int,
{
    depth > 0 && exists|r2: Ray, att: Vec3i, c2: Vec3i|
        #![trigger scatter_outcome_s(rec, r.dir@, att, r2.dir@), vmul(att, c2)]
        {
            &&& r2.orig@ == rec.p
            &&& scatter_outcome_s(rec, r.dir@, att, r2.dir@)
            &&& possible_color_s(r2, depth - 1, world, c2)
            &&& c == vmul(att, c2)
        }
}


/// Package a concrete scattered bounce as a possible bounce.
proof fn lemma_bounce_intro(
    rec: HitRecS,
    r: Ray,
    depth: int,
    world: Hittable,
    r2: Ray,
    att: Vec3i,
    c2: Vec3i,
    c: Vec3i,
)
    requires
        depth > 0,
        r2.orig@ == rec.p,
        scatter_outcome_s(rec, r.dir@, att, r2.dir@),
        possible_color_s(r2, depth - 1, world, c2),
        c == vmul(att, c2),
    ensures
        possible_bounce_s(rec, r, depth, world, c),
{
}


/// A sum of `n` sample radiances for pixel `(i, j)`: zero for no samples;
/// otherwise a previous sum plus the radiance of one ray drawn by the
/// sampling law (a jitter in the pixel square and a defocus-disk point)
/// and evaluated to a possible radiance at the camera's bounce budget.
pub open spec fn possible_sample_sum_s(
    c: Camera,
    world: Hittable,
    i: int,
    j: int,
    n: int,
    sum: Vec3i,
) -> bool
    decreases n,
{
    if n <= 0 {
        sum == (Vec3i { x: 0int, y: 0int, z: 0int })
    } else {
        exists|prev: Vec3i, r: Ray, cc: Vec3i, offset: Vec3i, disk: Vec3i|
            #![trigger ray_dir_s(c, i, j, offset, disk), possible_color_s(
                r,
                c.max_depth as int,
                world,
                cc,
            ), vadd(prev, cc)]
            {
                &&& possible_sample_sum_s(c, world, i, j, n - 1, prev)
                &&& -5000 <= offset.x < 5000
                &&& -5000 <= offset.y < 5000
                &&& offset.z == 0
                &&& cbound(disk, SCALE as int)
                &&& disk.z == 0
                &&& 1 <= lensq_s(disk) < SCALE
                &&& r.orig@ == ray_origin_s(c, disk)
                &&& r.dir@ == ray_dir_s(c, i, j, offset, disk)
                &&& possible_color_s(r, c.max_depth as int, world, cc)
                &&& sum == vadd(prev, cc)
            }
    }
}

/// A pixel the renderer can emit at `(i, j)`: the per-channel
/// quantization of a possible sample sum scaled by the per-sample weight.
pub open spec fn possible_pixel_s(c: Camera, world: Hittable, i: int, j: int, px: Rgb) -> bool {
    exists|sum: Vec3i|
        {
            &&& #[trigger] possible_sample_sum_s(
                c,
                world,
                i,
                j,
                c.samples_per_pixel as int,
                sum,
            )
            &&& px.r == channel_byte_s(fx_mul_s(c.pixel_samples_scale as int, sum.x))
            &&& px.g == channel_byte_s(fx_mul_s(c.pixel_samples_scale as int, sum.y))
            &&& px.b == channel_byte_s(fx_mul_s(c.pixel_samples_scale as int, sum.z))
        }
}

/// Package one drawn sample as a step of a possible sample sum.
proof fn lemma_sample_sum_step(
    c: Camera,
    world: Hittable,
    i: int,
    j: int,
    n: int,
    prev: Vec3i,
    r: Ray,
    cc: Vec3i,
    offset: Vec3i,
    disk: Vec3i,
    sum: Vec3i,
)
    requires
        n > 0,
        possible_sample_sum_s(c, world, i, j, n - 1, prev),
        -5000 <= offset.x < 5000,
        -5000 <= offset.y < 5000,
        offset.z == 0,
        cbound(disk, SCALE as int),
        disk.z == 0,
        1 <= lensq_s(disk) < SCALE,
        r.orig@ == ray_origin_s(c, disk),
        r.dir@ == ray_dir_s(c, i, j, offset, disk),
        possible_color_s(r, c.max_depth as int, world, cc),
        sum == vadd(prev, cc),
    ensures
        possible_sample_sum_s(c, world, i, j, n, sum),
{
}

/// Package a completed sample sum as a possible pixel.
proof fn lemma_pixel_intro(c: Camera, world: Hittable, i: int, j: int, sum: Vec3i, px: Rgb)
    requires
        possible_sample_sum_s(c, world, i, j, c.samples_per_pixel as int, sum),
        px.r == channel_byte_s(fx_mul_s(c.pixel_samples_scale as int, sum.x)),
        px.g == channel_byte_s(fx_mul_s(c.pixel_samples_scale as int, sum.y)),
        px.b == channel_byte_s(fx_mul_s(c.pixel_samples_scale as int, sum.z)),
    ensures
        possible_pixel_s(c, world, i, j, px),
{
}

/// A ray the intersection model accepts: bounded origin and direction, and
/// a direction of at least one grid step of squared length.
fn ray_ok(r: &Ray) -> (ok: bool)
    ensures
        ok == (cbound(r.orig@, 100_000_000) && cbound(r.dir@, 100_000_000) && lensq_s(r.dir@)
            >= 1),
{
    let in_o = -100_000_000 <= r.orig.x && r.orig.x <= 100_000_000 && -100_000_000 <= r.orig.y
        && r.orig.y <= 100_000_000 && -100_000_000 <= r.orig.z && r.orig.z <= 100_000_000;
    let in_d = -100_000_000 <= r.dir.x && r.dir.x <= 100_000_000 && -100_000_000 <= r.dir.y
        && r.dir.y <= 100_000_000 && -100_000_000 <= r.dir.z && r.dir.z <= 100_000_000;
    if !(in_o && in_d) {
        return false;
    }
    let wide = crate::vec3::lensq_wide(&r.dir);
    wide >= 1
}

impl Camera {
    /// A uniform jitter within the half-open unit pixel square.
    fn sample_square() -> (o: Vec3)
        ensures
            -5000 <= o@.x < 5000,
            -5000 <= o@.y < 5000,
            o@.z == 0,
    {
        Vec3::new_use(random_double() - 5000, random_double() - 5000, 0)
    }

    /// The camera ray for pixel `(i, j)` with the pixel jitter and the
    /// defocus-disk sample passed in: exactly the sampling law.
    pub fn get_ray_with(&self, i: i64, j: i64, offset: Vec3, disk: Vec3) -> (r: Ray)
        requires
            derived_ok(*self),
            0 <= i <= 4000,
            0 <= j <= 400_000,
            cbound(offset@, SCALE as int),
            cbound(disk@, SCALE as int),
        ensures
            r.orig@ == ray_origin_s(*self, disk@),
            r.dir@ == ray_dir_s(*self, i as int, j as int, offset@, disk@),
    {
        let isoff = i * SCALE + offset.x();
        let jsoff = j * SCALE + offset.y();
        proof {
            lemma_fxmul_bound(isoff as int, self.pixel_delta_u@.x, 41_000_000int,
                100_000_000_000_000int);
            lemma_fxmul_bound(isoff as int, self.pixel_delta_u@.y, 41_000_000int,
                100_000_000_000_000int);
            lemma_fxmul_bound(isoff as int, self.pixel_delta_u@.z, 41_000_000int,
                100_000_000_000_000int);
            lemma_fxmul_bound(jsoff as int, self.pixel_delta_v@.x, 4_100_000_000int,
                100_000_000_000int);
            lemma_fxmul_bound(jsoff as int, self.pixel_delta_v@.y, 4_100_000_000int,
                100_000_000_000int);
            lemma_fxmul_bound(jsoff as int, self.pixel_delta_v@.z, 4_100_000_000int,
                100_000_000_000int);
        }
        let pixel_sample = self
            .pixel00_loc
            .add(self.pixel_delta_u.scale(isoff))
            .add(self.pixel_delta_v.scale(jsoff));

        let ray_origin = if self.defocus_angle <= 0 {
            self.center
        } else {
            proof {
                lemma_fxmul_bound(disk@.x, self.defocus_disk_u@.x, SCALE as int,
                    10_000_000_000int);
                lemma_fxmul_bound(disk@.x, self.defocus_disk_u@.y, SCALE as int,
                    10_000_000_000int);
                lemma_fxmul_bound(disk@.x, self.defocus_disk_u@.z, SCALE as int,
                    10_000_000_000int);
                lemma_fxmul_bound(disk@.y, self.defocus_disk_v@.x, SCALE as int,
                    10_000_000_000int);
                lemma_fxmul_bound(disk@.y, self.defocus_disk_v@.y, SCALE as int,
                    10_000_000_000int);
                lemma_fxmul_bound(disk@.y, self.defocus_disk_v@.z, SCALE as int,
                    10_000_000_000int);
            }
            self.center.add(self.defocus_disk_u.scale(disk.x())).add(
                self.defocus_disk_v.scale(disk.y()),
            )
        };
        let ray_direction = pixel_sample.sub(ray_origin);

        Ray::new_use(&ray_origin, &ray_direction)
    }

    /// A camera ray for pixel `(i, j)`: jittered within the pixel square,
    /// and originating on the defocus disk where the aperture is open.
    pub fn get_ray(&self, i: i64, j: i64) -> (r: Ray)
        requires
            derived_ok(*self),
            0 <= i <= 4000,
            0 <= j <= 400_000,
        ensures
            exists|offset: Vec3i, disk: Vec3i|
                {
                    &&& -5000 <= offset.x < 5000
                    &&& -5000 <= offset.y < 5000
                    &&& offset.z == 0
                    &&& cbound(disk, SCALE as int)
                    &&& disk.z == 0
                    &&& 1 <= lensq_s(disk) < SCALE
                    &&& r.orig@ == ray_origin_s(*self, disk)
                    &&& r.dir@ == #[trigger] ray_dir_s(*self, i as int, j as int, offset, disk)
                },
    {
        let offset = Self::sample_square();
        let disk = random_in_unit_disk();
        let r = self.get_ray_with(i, j, offset, disk);
        proof {
            assert(r.orig@ == ray_origin_s(*self, disk@) && r.dir@ == ray_dir_s(
                *self,
                i as int,
                j as int,
                offset@,
                disk@,
            ));
        }
        r
    }

    /// The radiance carried back along a ray: black once the bounce budget
    /// is spent, the scattered radiance attenuated by the surface color on
    /// a hit, and the background gradient on a miss. A ray outside the
    /// grid model is treated as absorbed.
    pub fn ray_color(r: &Ray, depth: i64, world: &Hittable) -> (c: Color)
        requires
            hittable_wf(*world),
        ensures
            cbound(c@, 20_000),
            depth <= 0 ==> c@ == (Vec3i { x: 0int, y: 0int, z: 0int }),
            (depth > 0 && cbound(r.orig@, 100_000_000) && cbound(r.dir@, 100_000_000)
                && lensq_s(r.dir@) >= 1 && hit_s(*world, *r, 10, INFINITY as int).is_none())
                ==> c@ == background_s(r.dir@),
            possible_color_s(*r, depth as int, *world, c@),
        decreases depth,
    {
        if depth <= 0 {
            return Color::new_use(0, 0, 0);
        }
        if !ray_ok(r) {
            return Color::new_use(0, 0, 0);
        }

        let mut rec = HitRecord::new();

        if world.hit(*r, Interval::new_use(10, INFINITY), &mut rec) {
            let mut scattered = Ray::new();
            let mut attenuation = Color::new();
            if rec.mat.scatter(r, &rec, &mut attenuation, &mut scattered) {
                let bounced = Self::ray_color(&scattered, depth - 1, world);
                proof {
                    lemma_fxmul_bound(attenuation@.x, bounced@.x, SCALE as int, 20_000int);
                    lemma_fxmul_bound(attenuation@.y, bounced@.y, SCALE as int, 20_000int);
                    lemma_fxmul_bound(attenuation@.z, bounced@.z, SCALE as int, 20_000int);
                    match rec.mat {
                        Material::Lambertian(_) => {
                            let u = choose|u: Vec3i|
                                is_unit_sample(u) && cbound(u, 20_000) && lensq_s(u) >= 2500
                                    && #[trigger] lambertian_dir_s(rec@.normal, u)
                                    == scattered.dir@;
                            assert(is_unit_sample(u) && lambertian_dir_s(rec@.normal, u)
                                == scattered.dir@);
                            assert(scatter_outcome_s(rec@, r.dir@, attenuation@, scattered.dir@));
                        },
                        Material::Metal(m) => {
                            let u = choose|u: Vec3i|
                                is_unit_sample(u) && cbound(u, 20_000) && #[trigger] metal_dir_s(
                                    r.dir@,
                                    rec@.normal,
                                    m.fuzz as int,
                                    u,
                                ) == scattered.dir@;
                            assert(is_unit_sample(u) && metal_dir_s(
                                r.dir@,
                                rec@.normal,
                                m.fuzz as int,
                                u,
                            ) == scattered.dir@);
                            assert(scatter_outcome_s(rec@, r.dir@, attenuation@, scattered.dir@));
                        },
                        Material::Dielectric(d) => {
                            let rdv = choose|rd: int|
                                0 <= rd < SCALE && #[trigger] dielectric_dir_s(
                                    d.refraction_index as int,
                                    r.dir@,
                                    rec@.normal,
                                    rec.front_face,
                                    rd,
                                ) == scattered.dir@;
                            assert(rec@.front_face == rec.front_face);
                            assert(0 <= rdv < SCALE && dielectric_dir_s(
                                d.refraction_index as int,
                                r.dir@,
                                rec@.normal,
                                rec@.front_face,
                                rdv,
                            ) == scattered.dir@);
                            assert(scatter_outcome_s(rec@, r.dir@, attenuation@, scattered.dir@));
                        },
                    }
                    assert(scattered.orig@ == rec@.p);
                    assert(scatter_outcome_s(rec@, r.dir@, attenuation@, scattered.dir@));
                    assert(possible_color_s(scattered, depth - 1, *world, bounced@));
                    assert(hit_s(*world, *r, 10, INFINITY as int) == Option::Some(rec@));
                    assert(hit_s(*world, *r, 10, INFINITY as int).unwrap() == rec@);
                    lemma_bounce_intro(
                        rec@,
                        *r,
                        depth as int,
                        *world,
                        scattered,
                        attenuation@,
                        bounced@,
                        vmul(attenuation@, bounced@),
                    );
                    assert(possible_color_s(
                        *r,
                        depth as int,
                        *world,
                        vmul(attenuation@, bounced@),
                    ));
                }
                return attenuation.mul(bounced);
            }
            return Color::new_use(0, 0, 0);
        }

        background(*r.direction())
    }

    /// Render the scene: derive the viewport state, then gather and
    /// average the jittered samples of every pixel. The image is emitted
    /// in row-major order from the top-left pixel: the pixel of column
    /// `ii` in row `jj` stands at index `jj * image_width + ii`, and every
    /// pixel is the quantized weighted sum of sample radiances that the
    /// sampling and scattering laws allow.
    #[verifier::loop_isolation(false)]
    pub fn render(&mut self, world: &Hittable) -> (pixels: Vec<Rgb>)
        requires
            camera_wf(*old(self)),
            hittable_wf(*world),
        ensures
            pixels@.len() == image_height_s(*old(self)) * old(self).image_width,
            final(self).image_height == image_height_s(*old(self)),
            final(self).image_width == old(self).image_width,
            final(self).samples_per_pixel == old(self).samples_per_pixel,
            derived_ok(*final(self)),
            forall|jj: int, ii: int|
                0 <= jj < image_height_s(*old(self)) && 0 <= ii < old(self).image_width
                    ==> #[trigger] possible_pixel_s(
                    *final(self),
                    *world,
                    ii,
                    jj,
                    pixels@[jj * (old(self).image_width as int) + ii],
                ),
    {
        self.initialize();

        let mut pixels: Vec<Rgb> = Vec::new();
        let mut j: i64 = 0;
        while j < self.image_height
            invariant
                0 <= j <= self.image_height,
                pixels@.len() == j * self.image_width,
                forall|jj: int, ii: int|
                    0 <= jj && 0 <= ii < self.image_width && jj * (self.image_width as int) + ii
                        < pixels@.len() ==> #[trigger] possible_pixel_s(
                        *self,
                        *world,
                        ii,
                        jj,
                        pixels@[jj * (self.image_width as int) + ii],
                    ),
            decreases self.image_height - j,
        {
            let mut i: i64 = 0;
            while i < self.image_width
                invariant
                    0 <= i <= self.image_width,
                    0 <= j < self.image_height,
                    pixels@.len() == j * self.image_width + i,
                    forall|jj: int, ii: int|
                        0 <= jj && 0 <= ii < self.image_width && jj * (self.image_width as int)
                            + ii < pixels@.len() ==> #[trigger] possible_pixel_s(
                            *self,
                            *world,
                            ii,
                            jj,
                            pixels@[jj * (self.image_width as int) + ii],
                        ),
                decreases self.image_width - i,
            {
                let mut pixel_color = Color::new();
                let mut s: i64 = 0;
                while s < self.samples_per_pixel
                    invariant
                        0 <= s <= self.samples_per_pixel,
                        0 <= i < self.image_width,
                        0 <= j < self.image_height,
                        cbound(pixel_color@, 20_000 * s),
                        possible_sample_sum_s(
                            *self,
                            *world,
                            i as int,
                            j as int,
                            s as int,
                            pixel_color@,
                        ),
                    decreases self.samples_per_pixel - s,
                {
                    let r = self.get_ray(i, j);
                    let ghost (offv, diskv): (Vec3i, Vec3i) = choose|
                        offset: Vec3i,
                        disk: Vec3i,
                    |
                        {
                            &&& -5000 <= offset.x < 5000
                            &&& -5000 <= offset.y < 5000
                            &&& offset.z == 0
                            &&& cbound(disk, SCALE as int)
                            &&& disk.z == 0
                            &&& 1 <= lensq_s(disk) < SCALE
                            &&& r.orig@ == ray_origin_s(*self, disk)
                            &&& r.dir@ == #[trigger] ray_dir_s(
                                *self,
                                i as int,
                                j as int,
                                offset,
                                disk,
                            )
                        };
                    let c = Self::ray_color(&r, self.max_depth, world);
                    let ghost prev = pixel_color@;
                    pixel_color = pixel_color.add(c);
                    proof {
                        lemma_sample_sum_step(
                            *self,
                            *world,
                            i as int,
                            j as int,
                            s as int + 1,
                            prev,
                            r,
                            c@,
                            offv,
                            diskv,
                            pixel_color@,
                        );
                    }
                    s = s + 1;
                }
                let rgb = color_rgb(pixel_color, self.pixel_samples_scale);
                proof {
                    lemma_pixel_intro(*self, *world, i as int, j as int, pixel_color@, rgb);
                }
                pixels.push(rgb);
                proof {
                    assert forall|jj: int, ii: int|
                        0 <= jj && 0 <= ii < self.image_width && jj * (self.image_width as int)
                            + ii < pixels@.len() implies #[trigger] possible_pixel_s(
                        *self,
                        *world,
                        ii,
                        jj,
                        pixels@[jj * (self.image_width as int) + ii],
                    ) by {
                        let w = self.image_width as int;
                        if jj * w + ii < pixels@.len() - 1 {
                        } else {
                            lemma_fundamental_div_mod_converse(jj * w + ii, w, jj, ii);
                            lemma_fundamental_div_mod_converse(jj * w + ii, w, j as int, i as int);
                        }
                    };
                }
                i = i + 1;
            }
            proof {
                assert((j + 1) * self.image_width == j * self.image_width + self.image_width)
                    by (nonlinear_arith);
            }
            j = j + 1;
        }

        proof {
            assert forall|jj: int, ii: int|
                0 <= jj < self.image_height && 0 <= ii < self.image_width
                    implies #[trigger] possible_pixel_s(
                *self,
                *world,
                ii,
                jj,
                pixels@[jj * (self.image_width as int) + ii],
            ) by {
                assert(jj * (self.image_width as int) + ii < pixels@.len()) by (nonlinear_arith)
                    requires
                        0 <= jj < self.image_height as int,
                        0 <= ii < self.image_width as int,
                        pixels@.len() == (self.image_height as int) * (self.image_width as int),
                ;
            };
        }
        pixels
    }
}

} // verus!
