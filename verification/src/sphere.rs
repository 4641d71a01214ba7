//! Spheres and their ray intersection via the half-discriminant quadratic.

use crate::fixed::{
    abs_s, fx_mul, fx_mul_s, fx_sqrt_s, is_isqrt, lemma_fxmul_bound, lemma_isqrt_exists,
    lemma_isqrt_is, lemma_tdiv_abs, lemma_tdiv_bound, lemma_tdiv_monotone, tdiv_s, SCALE,
};
use crate::hittable::{HitRecS, HitRecord};
use crate::interval::Interval;
use crate::material::{material_wf, Material};
use crate::ray::{at_s, Point3, Ray};
use crate::rtweekend::INFINITY;
use crate::vec3::{
    cbound, dot, dot_s, lemma_dot_bound, lemma_lensq_nonneg, lensq_s, unit_s, unit_vector, vneg,
    vsub, Vec3i,
};
use vstd::prelude::*;

verus! {

#[derive(Clone, Copy, PartialEq, Eq, Structural, Debug)]
pub struct Sphere {
    pub center: Point3,
    pub radius: i64,
    pub mat: Material,
}

/// A well-formed sphere: bounded center, a radius of at least one grid
/// step, and a well-formed material.
pub open spec fn sphere_wf(s: Sphere) -> bool {
    cbound(s.center@, 100_000_000) && 1 <= s.radius <= 100_000_000 && material_wf(s.mat)
}

/// Quadratic coefficient `a`: the squared direction length.
pub open spec fn sphere_a_s(dir: Vec3i) -> int {
    lensq_s(dir)
}

/// Half-coefficient `h = dir . (center - origin)`.
pub open spec fn sphere_h_s(s: Sphere, orig: Vec3i, dir: Vec3i) -> int {
    dot_s(dir, vsub(s.center@, orig))
}

/// Constant coefficient `c = |center - origin|^2 - radius^2`.
pub open spec fn sphere_c_s(s: Sphere, orig: Vec3i) -> int {
    lensq_s(vsub(s.center@, orig)) - fx_mul_s(s.radius as int, s.radius as int)
}

/// The half-form discriminant `h^2 - a c`.
pub open spec fn sphere_disc_s(s: Sphere, orig: Vec3i, dir: Vec3i) -> int {
    fx_mul_s(sphere_h_s(s, orig, dir), sphere_h_s(s, orig, dir)) - fx_mul_s(
        sphere_a_s(dir),
        sphere_c_s(s, orig),
    )
}

/// The near root `(h - sqrt(disc)) / a`.
pub open spec fn sphere_root1_s(s: Sphere, orig: Vec3i, dir: Vec3i) -> int {
    tdiv_s(
        (sphere_h_s(s, orig, dir) - fx_sqrt_s(sphere_disc_s(s, orig, dir))) * SCALE,
        sphere_a_s(dir),
    )
}

/// The far root `(h + sqrt(disc)) / a`.
pub open spec fn sphere_root2_s(s: Sphere, orig: Vec3i, dir: Vec3i) -> int {
    tdiv_s(
        (sphere_h_s(s, orig, dir) + fx_sqrt_s(sphere_disc_s(s, orig, dir))) * SCALE,
        sphere_a_s(dir),
    )
}

/// The full intersection law of a sphere: the nearer root strictly inside
/// the window wins, else the farther; a hit whose point lands on the
/// center's grid cell cannot carry a normal and counts as a miss.
pub open spec fn sphere_hit_s(s: Sphere, r: Ray, tmin: int, tmax: int) -> Option<HitRecS> {
    let disc = sphere_disc_s(s, r.orig@, r.dir@);
    if disc < 0 {
        Option::None
    } else {
        let root1 = sphere_root1_s(s, r.orig@, r.dir@);
        let root2 = sphere_root2_s(s, r.orig@, r.dir@);
        let root = if tmin < root1 < tmax {
            root1
        } else {
            root2
        };
        if !(tmin < root < tmax) {
            Option::None
        } else {
            let p = at_s(r, root);
            let diff = vsub(p, s.center@);
            if lensq_s(diff) < 1 {
                Option::None
            } else {
                let outward = unit_s(diff);
                let ff = dot_s(r.dir@, outward) < 0;
                Option::Some(
                    HitRecS {
                        p,
                        normal: if ff {
                            outward
                        } else {
                            vneg(outward)
                        },
                        t: root,
                        front_face: ff,
                        mat: s.mat,
                    },
                )
            }
        }
    }
}

impl Sphere {
    pub fn new_use(c: Point3, r: i64, m: Material) -> (s: Self)
        ensures
            s.center == c,
            s.radius == r,
            s.mat == m,
    {
        Sphere { center: c, radius: r, mat: m }
    }

    /// Intersect a ray against this sphere over the window `ray_t`,
    /// filling `rec` exactly as the intersection law states. The outward
    /// normal is the normalized offset of the hit point from the center,
    /// which keeps it unit length on the grid.
    pub fn hit(&self, r: Ray, ray_t: Interval, rec: &mut HitRecord) -> (hb: bool)
        requires
            sphere_wf(*self),
            cbound(r.orig@, 100_000_000),
            cbound(r.dir@, 100_000_000),
            1 <= lensq_s(r.dir@),
            -INFINITY <= ray_t.min,
            ray_t.max <= INFINITY,
        ensures
            hb == sphere_hit_s(*self, r, ray_t.min as int, ray_t.max as int).is_some(),
            hb ==> final(rec)@ == sphere_hit_s(
                *self,
                r,
                ray_t.min as int,
                ray_t.max as int,
            ).unwrap(),
            !hb ==> *final(rec) == *old(rec),
            hb ==> ray_t.min < final(rec).t < ray_t.max,
            hb ==> cbound(final(rec).p@, 600_000_000_000_000),
            hb ==> cbound(final(rec).normal@, 20_000),
            hb ==> lensq_s(final(rec).normal@) >= 2500,
            hb ==> dot_s(r.dir@, final(rec).normal@) <= 0,
            hb ==> final(rec).mat == self.mat,
    {
        proof {
            lemma_dot_bound(r.dir@, r.dir@, 100_000_000int, 100_000_000int);
            lemma_lensq_nonneg(r.dir@);
        }
        let oc = self.center.sub(*r.origin());
        proof {
            assert(cbound(oc@, 200_000_000int));
            lemma_dot_bound(r.dir@, oc@, 100_000_000int, 200_000_000int);
            lemma_dot_bound(oc@, oc@, 200_000_000int, 200_000_000int);
            lemma_lensq_nonneg(oc@);
            lemma_fxmul_bound(self.radius as int, self.radius as int, 100_000_000int,
                100_000_000int);
        }
        let a = r.direction().length_squared();
        let h = dot(*r.direction(), oc);
        let c = oc.length_squared() - fx_mul(self.radius, self.radius);

        proof {
            assert(abs_s((h as int) * (h as int)) <= 6_000_000_000_000int * 6_000_000_000_000int)
                by (nonlinear_arith)
                requires
                    abs_s(h as int) <= 6_000_000_000_000int,
            ;
            assert(abs_s((a as int) * (c as int)) <= 3_000_000_000_000int * 13_000_000_000_000int)
                by (nonlinear_arith)
                requires
                    abs_s(a as int) <= 3_000_000_000_000int,
                    abs_s(c as int) <= 13_000_000_000_000int,
            ;
            lemma_tdiv_bound((h as int) * (h as int), SCALE as int,
                36_000_000_000_000_000_000_000_000int);
            lemma_tdiv_bound((a as int) * (c as int), SCALE as int,
                39_000_000_000_000_000_000_000_000int);
        }
        let hh: i128 = crate::fixed::tdiv128((h as i128) * (h as i128), SCALE as i128);
        let ac: i128 = crate::fixed::tdiv128((a as i128) * (c as i128), SCALE as i128);
        let discriminant: i128 = hh - ac;

        if discriminant < 0 {
            return false;
        }

        let sqd128 = crate::fixed::isqrt128((discriminant as u128) * (SCALE as u128));
        proof {
            assert(sqd128 < 10_000_000_000_000u128) by (nonlinear_arith)
                requires
                    (sqd128 as int) * (sqd128 as int) <= (discriminant as int) * (SCALE as int),
                    discriminant <= 8_000_000_000_000_000_000_000i128,
                    SCALE == 10000,
            ;
            lemma_isqrt_is((discriminant as int) * (SCALE as int), sqd128 as int);
        }
        let sqd: i64 = sqd128 as i64;

        proof {
            lemma_tdiv_bound(((h - sqd) as int) * (SCALE as int), a as int,
                200_000_000_000_000_000int);
            lemma_tdiv_bound(((h + sqd) as int) * (SCALE as int), a as int,
                200_000_000_000_000_000int);
        }
        // Find the nearest root that lies in the acceptable range.
        let root1: i128 = crate::fixed::tdiv128(
            ((h as i128) - (sqd as i128)) * (SCALE as i128),
            a as i128,
        );
        let mut root: i128 = root1;
        if !((ray_t.min as i128) < root && root < (ray_t.max as i128)) {
            root = crate::fixed::tdiv128(
                ((h as i128) + (sqd as i128)) * (SCALE as i128),
                a as i128,
            );
            if !((ray_t.min as i128) < root && root < (ray_t.max as i128)) {
                return false;
            }
        }
        let t64: i64 = root as i64;

        let p = r.at(t64);
        let diff = p.sub(self.center);
        let wide = crate::vec3::lensq_wide(&diff);
        if wide < 1 {
            return false;
        }
        let outward_normal = unit_vector(diff);

        rec.t = t64;
        rec.p = p;
        rec.mat = self.mat;
        rec.set_face_normal(r, outward_normal);
        proof {
            crate::vec3::lemma_neg_dot_lensq(outward_normal@, outward_normal@);
        }
        true
    }
}

/// With a nonnegative discriminant the near root never exceeds the far
/// root.
pub proof fn lemma_sphere_roots_ordered(s: Sphere, r: Ray)
    requires
        lensq_s(r.dir@) >= 1,
        sphere_disc_s(s, r.orig@, r.dir@) >= 0,
    ensures
        sphere_root1_s(s, r.orig@, r.dir@) <= sphere_root2_s(s, r.orig@, r.dir@),
{
    let h = sphere_h_s(s, r.orig@, r.dir@);
    let a = sphere_a_s(r.dir@);
    let disc = sphere_disc_s(s, r.orig@, r.dir@);
    lemma_isqrt_exists(disc * SCALE);
    let sqd = fx_sqrt_s(disc);
    assert(is_isqrt(disc * SCALE, sqd));
    assert((h - sqd) * SCALE <= (h + sqd) * SCALE) by (nonlinear_arith)
        requires
            sqd >= 0,
            SCALE == 10000,
    ;
    lemma_tdiv_monotone((h - sqd) * SCALE, (h + sqd) * SCALE, a);
}

/// A ray that starts outside a sphere (`c > 0`) and points toward it
/// (`h > 0`) has a near root at or beyond the origin: the square root of
/// the discriminant cannot exceed `h`.
pub proof fn lemma_sphere_near_root_ahead(s: Sphere, r: Ray)
    requires
        sphere_wf(s),
        lensq_s(r.dir@) >= 1,
        sphere_c_s(s, r.orig@) > 0,
        sphere_h_s(s, r.orig@, r.dir@) > 0,
        sphere_disc_s(s, r.orig@, r.dir@) >= 0,
    ensures
        0 <= sphere_root1_s(s, r.orig@, r.dir@),
        sphere_root1_s(s, r.orig@, r.dir@) <= sphere_root2_s(s, r.orig@, r.dir@),
{
    let h = sphere_h_s(s, r.orig@, r.dir@);
    let a = sphere_a_s(r.dir@);
    let c = sphere_c_s(s, r.orig@);
    let disc = sphere_disc_s(s, r.orig@, r.dir@);
    lemma_sphere_roots_ordered(s, r);

    assert(a * c >= 0) by (nonlinear_arith)
        requires
            a >= 1,
            c > 0,
    ;
    lemma_tdiv_abs(a * c, SCALE as int);
    assert(fx_mul_s(a, c) >= 0);

    lemma_tdiv_abs(h * h, SCALE as int);
    vstd::arithmetic::div_mod::lemma_fundamental_div_mod(h * h, SCALE as int);
    vstd::arithmetic::div_mod::lemma_mod_pos_bound(h * h, SCALE as int);
    assert(fx_mul_s(h, h) * SCALE <= h * h) by (nonlinear_arith)
        requires
            h * h == (SCALE as int) * (fx_mul_s(h, h)) + (h * h) % (SCALE as int),
            (h * h) % (SCALE as int) >= 0,
            SCALE == 10000,
    ;
    assert(disc * SCALE <= fx_mul_s(h, h) * SCALE) by (nonlinear_arith)
        requires
            disc <= fx_mul_s(h, h),
            SCALE == 10000,
    ;

    lemma_isqrt_exists(disc * SCALE);
    let sqd = fx_sqrt_s(disc);
    assert(is_isqrt(disc * SCALE, sqd));
    assert(sqd <= h) by (nonlinear_arith)
        requires
            sqd >= 0,
            h > 0,
            sqd * sqd <= disc * SCALE,
            disc * SCALE <= h * h,
    ;
    assert((h - sqd) * SCALE >= 0) by (nonlinear_arith)
        requires
            sqd <= h,
            SCALE == 10000,
    ;
    lemma_tdiv_abs((h - sqd) * SCALE, a);
    vstd::arithmetic::div_mod::lemma_div_pos_is_pos((h - sqd) * SCALE, a);
}

/// For a ray whose origin lies outside a sphere and whose direction
/// passes through it, the intersection succeeds at the near root with a
/// strictly positive parameter, provided the near root falls inside the
/// window and the hit point does not land on the center's grid cell.
pub proof fn lemma_sphere_hit_outside_through(s: Sphere, r: Ray, tmin: int, tmax: int)
    requires
        sphere_wf(s),
        lensq_s(r.dir@) >= 1,
        sphere_c_s(s, r.orig@) > 0,
        sphere_h_s(s, r.orig@, r.dir@) > 0,
        sphere_disc_s(s, r.orig@, r.dir@) >= 0,
        0 <= tmin < sphere_root1_s(s, r.orig@, r.dir@) < tmax,
        lensq_s(vsub(at_s(r, sphere_root1_s(s, r.orig@, r.dir@)), s.center@)) >= 1,
    ensures
        sphere_hit_s(s, r, tmin, tmax).is_some(),
        sphere_hit_s(s, r, tmin, tmax).unwrap().t == sphere_root1_s(s, r.orig@, r.dir@),
        sphere_hit_s(s, r, tmin, tmax).unwrap().t > 0,
        sphere_hit_s(s, r, tmin, tmax).unwrap().p == at_s(r, sphere_root1_s(s, r.orig@, r.dir@)),
{
    lemma_sphere_near_root_ahead(s, r);
}

/// Capping the window at or below the parameter of a successful hit makes
/// the sphere miss: both roots lie at or beyond the cap.
pub proof fn lemma_sphere_hit_tighter_none(s: Sphere, r: Ray, tmin: int, tmax: int, cap: int)
    requires
        lensq_s(r.dir@) >= 1,
        sphere_hit_s(s, r, tmin, tmax).is_some(),
        cap <= sphere_hit_s(s, r, tmin, tmax).unwrap().t,
    ensures
        sphere_hit_s(s, r, tmin, cap).is_none(),
{
    lemma_sphere_roots_ordered(s, r);
}

/// Capping the window strictly above the parameter of a successful hit
/// leaves the hit unchanged.
pub proof fn lemma_sphere_hit_tighter_same(s: Sphere, r: Ray, tmin: int, tmax: int, cap: int)
    requires
        lensq_s(r.dir@) >= 1,
        sphere_hit_s(s, r, tmin, tmax).is_some(),
        sphere_hit_s(s, r, tmin, tmax).unwrap().t < cap <= tmax,
    ensures
        sphere_hit_s(s, r, tmin, cap) == sphere_hit_s(s, r, tmin, tmax),
{
    lemma_sphere_roots_ordered(s, r);
}

} // verus!
