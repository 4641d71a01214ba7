//! Rays: an origin, a direction, and the parametrized point `origin +
//! t * direction`, together with the early standalone sphere shading.

use crate::fixed::{abs_s, fx_mul, fx_mul_s, fx_sqrt_s, isqrt_s, lemma_fxmul_bound, lemma_isqrt_is,
    lemma_tdiv_abs, lemma_tdiv_bound, lemma_tdiv_monotone, tdiv_s, SCALE};
use crate::rtweekend::INFINITY;
use crate::vec3::{
    cbound, dot, dot_s, lemma_dot_bound, lemma_lensq_nonneg, lensq_s, unit_s, unit_vector, vadd,
    vscale, vsub, Color, Vec3, Vec3i,
};
use vstd::prelude::*;

verus! {

pub type Point3 = Vec3;

#[derive(Clone, Copy, PartialEq, Eq, Structural, Debug)]
pub struct Ray {
    pub dir: Vec3,
    pub orig: Point3,
}

/// The point at parameter `t` along the ray.
pub open spec fn at_s(r: Ray, t: int) -> Vec3i {
    vadd(r.orig@, vscale(r.dir@, t))
}

impl Ray {
    /// The degenerate ray at the origin.
    pub fn new() -> (r: Self)
        ensures
            r.orig@ == (Vec3i { x: 0int, y: 0int, z: 0int }),
            r.dir@ == (Vec3i { x: 0int, y: 0int, z: 0int }),
    {
        Ray { dir: Vec3::new(), orig: Point3::new() }
    }

    pub fn new_use(origin: &Point3, direction: &Vec3) -> (r: Self)
        ensures
            r.orig == *origin,
            r.dir == *direction,
    {
        Ray { dir: *direction, orig: *origin }
    }

    pub fn origin(&self) -> (r: &Point3)
        ensures
            *r == self.orig,
    {
        &self.orig
    }

    pub fn direction(&self) -> (r: &Vec3)
        ensures
            *r == self.dir,
    {
        &self.dir
    }

    pub fn at(&self, t: i64) -> (p: Point3)
        requires
            cbound(self.orig@, 100_000_000),
            cbound(self.dir@, 100_000_000),
            abs_s(t as int) <= INFINITY,
        ensures
            p@ == at_s(*self, t as int),
            cbound(p@, 600_000_000_000_000),
    {
        proof {
            lemma_fxmul_bound(t as int, self.dir@.x, INFINITY as int, 100_000_000int);
            lemma_fxmul_bound(t as int, self.dir@.y, INFINITY as int, 100_000_000int);
            lemma_fxmul_bound(t as int, self.dir@.z, INFINITY as int, 100_000_000int);
        }
        self.orig.add(self.dir.scale(t))
    }
}

impl Default for Ray {
    /// The degenerate ray at the origin, as `new` builds it.
    fn default() -> (r: Self)
        ensures
            r.orig@ == (Vec3i { x: 0int, y: 0int, z: 0int }),
            r.dir@ == (Vec3i { x: 0int, y: 0int, z: 0int }),
    {
        Ray::new()
    }
}

/// The near intersection parameter of a ray with a sphere, from the
/// half-discriminant quadratic, or minus one where the ray misses.
pub open spec fn hit_sphere_s(center: Vec3i, radius: int, orig: Vec3i, dir: Vec3i) -> int {
    let oc = vsub(center, orig);
    let a = lensq_s(dir);
    let h = dot_s(dir, oc);
    let c = lensq_s(oc) - fx_mul_s(radius, radius);
    let disc = fx_mul_s(h, h) - fx_mul_s(a, c);
    if disc < 0 {
        -(SCALE as int)
    } else {
        tdiv_s((h - fx_sqrt_s(disc)) * SCALE, a)
    }
}

/// Solve the sphere quadratic for a ray and return the near root, or minus
/// one where the discriminant is negative.
pub fn hit_sphere(center: Point3, radius: i64, r: Ray) -> (t: i64)
    requires
        cbound(center@, 100_000_000),
        cbound(r.orig@, 100_000_000),
        cbound(r.dir@, 100_000_000),
        0 <= radius <= 100_000_000,
        1 <= lensq_s(r.dir@),
    ensures
        t == hit_sphere_s(center@, radius as int, r.orig@, r.dir@),
{
    proof {
        lemma_dot_bound(r.dir@, r.dir@, 100_000_000int, 100_000_000int);
        lemma_lensq_nonneg(r.dir@);
    }
    let oc = center.sub(*r.origin());
    proof {
        assert(cbound(oc@, 200_000_000int));
        lemma_dot_bound(r.dir@, oc@, 100_000_000int, 200_000_000int);
        lemma_dot_bound(oc@, oc@, 200_000_000int, 200_000_000int);
        lemma_lensq_nonneg(oc@);
        lemma_fxmul_bound(radius as int, radius as int, 100_000_000int, 100_000_000int);
    }
    let a = r.direction().length_squared();
    let h = dot(*r.direction(), oc);
    let c = oc.length_squared() - fx_mul(radius, radius);

    proof {
        assert(abs_s((h as int) * (h as int)) <= 6_000_000_000_000int * 6_000_000_000_000int)
            by (nonlinear_arith)
            requires
                abs_s(h as int) <= 6_000_000_000_000int,
        ;
        assert(abs_s((a as int) * (c as int)) <= 3_000_000_000_000int * 13_000_000_000_000int)
            by (nonlinear_arith)
            requires
                abs_s(a as int) <= 3_000_000_000_000int,
                abs_s(c as int) <= 13_000_000_000_000int,
        ;
        lemma_tdiv_bound((h as int) * (h as int), SCALE as int,
            36_000_000_000_000_000_000_000_000int);
        lemma_tdiv_bound((a as int) * (c as int), SCALE as int,
            39_000_000_000_000_000_000_000_000int);
    }
    let hh: i128 = crate::fixed::tdiv128((h as i128) * (h as i128), SCALE as i128);
    let ac: i128 = crate::fixed::tdiv128((a as i128) * (c as i128), SCALE as i128);
    let discriminant: i128 = hh - ac;

    if discriminant < 0 {
        return -SCALE;
    }
    let sqd128 = crate::fixed::isqrt128((discriminant as u128) * (SCALE as u128));
    proof {
        assert(sqd128 < 10_000_000_000_000u128) by (nonlinear_arith)
            requires
                (sqd128 as int) * (sqd128 as int) <= (discriminant as int) * (SCALE as int),
                discriminant <= 8_000_000_000_000_000_000_000i128,
                SCALE == 10000,
        ;
        lemma_isqrt_is((discriminant as int) * (SCALE as int), sqd128 as int);
    }
    let sqd: i64 = sqd128 as i64;
    proof {
        lemma_tdiv_bound(((h - sqd) as int) * (SCALE as int), a as int,
            200_000_000_000_000_000int);
    }
    let num: i128 = ((h as i128) - (sqd as i128)) * (SCALE as i128);
    let t = crate::fixed::tdiv128(num, a as i128);
    t as i64
}

/// The early standalone shading: hits against one fixed sphere and colors
/// by its outward normal, otherwise shows the background gradient.
pub open spec fn ray_color_s(r: Ray) -> Vec3i {
    let center = Vec3i { x: 0int, y: 0int, z: -(SCALE as int) };
    let t = hit_sphere_s(center, 5000, r.orig@, r.dir@);
    let diff = vsub(at_s(r, t), center);
    if 0 < t <= INFINITY && lensq_s(diff) >= 1 {
        let n = unit_s(diff);
        vscale(
            Vec3i { x: n.x + SCALE, y: n.y + SCALE, z: n.z + SCALE },
            5000,
        )
    } else {
        background_s(r.dir@)
    }
}

/// The vertical background gradient: white blended toward sky blue by the
/// unit direction's height.
pub open spec fn background_s(dir: Vec3i) -> Vec3i {
    let u = unit_s(dir);
    let a = fx_mul_s(5000, u.y + SCALE);
    vadd(
        vscale(Vec3i { x: SCALE as int, y: SCALE as int, z: SCALE as int }, SCALE - a),
        vscale(Vec3i { x: 5000, y: 7000, z: SCALE as int }, a),
    )
}


/// One half times one is one half on the grid.
proof fn lemma_half_of_one()
    ensures
        tdiv_s(5000 * (SCALE as int), SCALE as int) == 5000,
{
    crate::fixed::lemma_fx_identity(5000);
}

/// One half times three is one and a half on the grid.
proof fn lemma_half_of_three()
    ensures
        fx_mul_s(5000, 3 * (SCALE as int)) == 15_000,
{
    assert(5000 * (3 * (SCALE as int)) == 15_000 * (SCALE as int)) by (nonlinear_arith)
        requires
            SCALE == 10000,
    ;
    crate::fixed::lemma_fx_identity(15_000);
}

/// One blended channel of the gradient stays within one and a half units.
proof fn lemma_blend_bound(a: int, c: int)
    requires
        -5000 <= a <= 15_000,
        0 <= c <= SCALE,
    ensures
        abs_s(fx_mul_s(SCALE - a, SCALE as int) + fx_mul_s(a, c)) <= 15_000,
{
    crate::fixed::lemma_fx_identity((SCALE as int) - a);
    crate::fixed::lemma_fx_identity(a);
    if a >= 0 {
        assert(a * c <= a * SCALE) by (nonlinear_arith)
            requires
                0 <= a,
                c <= SCALE,
        ;
        lemma_tdiv_monotone(a * c, a * (SCALE as int), SCALE as int);
        lemma_tdiv_abs(a * c, SCALE as int);
    } else {
        assert(a * (SCALE as int) <= a * c && a * c <= 0) by (nonlinear_arith)
            requires
                a < 0,
                0 <= c <= SCALE,
        ;
        lemma_tdiv_monotone(a * (SCALE as int), a * c, SCALE as int);
        lemma_tdiv_monotone(a * c, 0, SCALE as int);
        lemma_tdiv_abs(0, SCALE as int);
    }
}

/// The background gradient of a ray direction.
pub fn background(dir: Vec3) -> (c: Color)
    requires
        cbound(dir@, 100_000_000),
        1 <= lensq_s(dir@),
    ensures
        c@ == background_s(dir@),
        cbound(c@, 15_000),
{
    let unit_direction = unit_vector(dir);
    proof {
        lemma_fxmul_bound(5000, unit_direction@.y + SCALE, 5000, 30_000int);
        let a: int = fx_mul_s(5000, unit_direction@.y + SCALE);
        crate::fixed::lemma_fxmul_monotone(5000, -(SCALE as int), unit_direction@.y + SCALE);
        crate::fixed::lemma_fxmul_monotone(5000, unit_direction@.y + SCALE, 3 * (SCALE as int));
        crate::fixed::lemma_fx_identity(-(SCALE as int));
        assert(fx_mul_s(5000, -(SCALE as int)) == -5000) by {
            lemma_tdiv_abs(5000 * SCALE, SCALE as int);
            assert(5000 * (-(SCALE as int)) == -(5000 * (SCALE as int))) by (nonlinear_arith);
            crate::fixed::lemma_tdiv_neg(5000 * (SCALE as int), SCALE as int);
            lemma_half_of_one();
        }
        assert(fx_mul_s(5000, 3 * (SCALE as int)) == 15_000) by {
            lemma_half_of_three();
        }
        lemma_blend_bound(a, SCALE as int);
        lemma_blend_bound(a, 5000);
        lemma_blend_bound(a, 7000);
        lemma_fxmul_bound(SCALE as int - a, SCALE as int, 26_000int, SCALE as int);
        lemma_fxmul_bound(a, 5000, 16_000int, 5000);
        lemma_fxmul_bound(a, 7000, 16_000int, 7000);
        lemma_fxmul_bound(a, SCALE as int, 16_000int, SCALE as int);
    }
    let a = fx_mul(5000, unit_direction.y() + SCALE);
    let white = Color::new_use(SCALE, SCALE, SCALE);
    let blue = Color::new_use(5000, 7000, SCALE);
    white.scale(SCALE - a).add(blue.scale(a))
}

/// The early standalone shading of one ray: a fixed sphere at `z = -1`
/// of radius one half, colored by its normal, over the gradient.
pub fn ray_color(r: &Ray) -> (c: Color)
    requires
        cbound(r.orig@, 100_000_000),
        cbound(r.dir@, 100_000_000),
        1 <= lensq_s(r.dir@),
    ensures
        c@ == ray_color_s(*r),
{
    let center = Point3::new_use(0, 0, -SCALE);
    let t = hit_sphere(center, 5000, *r);
    if 0 < t && t <= INFINITY {
        let p = r.at(t);
        let diff = p.sub(center);
        let wide = crate::vec3::lensq_wide(&diff);
        if wide >= 1 {
            let n = unit_vector(diff);
            proof {
                lemma_fxmul_bound(n@.x + SCALE, 5000, 30_000int, 5000);
                lemma_fxmul_bound(n@.y + SCALE, 5000, 30_000int, 5000);
                lemma_fxmul_bound(n@.z + SCALE, 5000, 30_000int, 5000);
            }
            let shade = Color::new_use(n.x() + SCALE, n.y() + SCALE, n.z() + SCALE);
            return shade.scale(5000);
        }
        return background(*r.direction());
    }
    background(*r.direction())
}

} // verus!
