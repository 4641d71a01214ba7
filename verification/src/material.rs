//! Scattering behavior attached to hit points: diffuse, specular with
//! fuzz, and refractive with Schlick reflectance.
//!
//! Each material's randomized `scatter` delegates to a deterministic
//! `scatter_with` that takes the random draw as an argument and carries an
//! exact contract, so the scattering law itself is fully specified.

use crate::fixed::{
    abs_s, fx_div, fx_div_s, fx_mul, fx_mul_s, fx_sqrt, fx_sqrt_s, is_isqrt, lemma_fxmul_bound,
    lemma_isqrt_exists, lemma_tdiv_abs, lemma_tdiv_bound, SCALE,
};
use crate::hittable::{HitRecS, HitRecord};
use crate::ray::Ray;
use crate::rtweekend::random_double;
use crate::vec3::{
    cbound, dot, dot_s, is_unit_sample, lemma_dot_bound, lemma_refract_norm_bound, lensq_s,
    near_zero_s, random_unit_vector, reflect, reflect_s, refract, refract_cos_s, refract_s,
    unit_s, unit_vector, vadd, vneg, vscale, Color, Vec3, Vec3i,
};
use vstd::arithmetic::div_mod::{
    lemma_div_by_multiple, lemma_div_by_self, lemma_div_is_ordered,
    lemma_div_is_ordered_by_denominator, lemma_div_of0,
};
use vstd::prelude::*;

verus! {

#[derive(Clone, Copy, PartialEq, Eq, Structural, Debug)]
pub enum Material {
    Lambertian(Lambertian),
    Metal(Metal),
    Dielectric(Dielectric),
}

#[derive(Clone, Copy, PartialEq, Eq, Structural, Debug)]
pub struct Lambertian {
    pub albedo: Color,
}

#[derive(Clone, Copy, PartialEq, Eq, Structural, Debug)]
pub struct Metal {
    pub albedo: Color,
    pub fuzz: i64,
}

#[derive(Clone, Copy, PartialEq, Eq, Structural, Debug)]
pub struct Dielectric {
    pub refraction_index: i64,
}

/// Each channel within `[0, 1]` on the grid.
pub open spec fn color01(c: Vec3i) -> bool {
    0 <= c.x <= SCALE && 0 <= c.y <= SCALE && 0 <= c.z <= SCALE
}

/// A well-formed material: albedos are colors, fuzz sits in `[0, 1]`, and
/// a refraction index is at least one grid step and bounded.
pub open spec fn material_wf(m: Material) -> bool {
    match m {
        Material::Lambertian(l) => color01(l.albedo@),
        Material::Metal(mt) => color01(mt.albedo@) && 0 <= mt.fuzz <= SCALE,
        Material::Dielectric(d) => 1 <= d.refraction_index <= 100_000_000,
    }
}

/// What a record must offer a scatter call: a bounded point and a bounded,
/// clearly nonzero unit-grade normal.
pub open spec fn rec_scatter_wf(rec: HitRecord) -> bool {
    cbound(rec@.p, 600_000_000_000_000) && cbound(rec@.normal, 20_000) && lensq_s(rec@.normal)
        >= 2500
}

/// What an incoming ray must offer a scatter call.
pub open spec fn ray_scatter_wf(r: Ray) -> bool {
    cbound(r.dir@, 100_000_000) && lensq_s(r.dir@) >= 1
}

/// The diffuse scatter direction for a given random unit offset `u`: the
/// normal plus `u`, or the normal alone where the sum degenerates.
pub open spec fn lambertian_dir_s(normal: Vec3i, u: Vec3i) -> Vec3i {
    let d = vadd(normal, u);
    if near_zero_s(d) {
        normal
    } else {
        d
    }
}

/// The fuzzy specular direction for a given random unit offset `u`.
pub open spec fn metal_dir_s(v: Vec3i, n: Vec3i, fuzz: int, u: Vec3i) -> Vec3i {
    vadd(unit_s(reflect_s(v, n)), vscale(u, fuzz))
}

/// Schlick's reflectance approximation on the grid.
pub open spec fn reflectance_s(cosine: int, refraction_index: int) -> int {
    let r0a = fx_div_s(SCALE - refraction_index, SCALE + refraction_index);
    let r0 = fx_mul_s(r0a, r0a);
    let om = SCALE - cosine;
    let p2 = fx_mul_s(om, om);
    let p4 = fx_mul_s(p2, p2);
    let p5 = fx_mul_s(p4, om);
    r0 + fx_mul_s(SCALE - r0, p5)
}

/// The incidence cosine a dielectric works with: the dot of the reversed
/// unit direction with the normal, clamped into `[-1, 1]` on the grid.
pub open spec fn dielectric_cos_s(dir: Vec3i, normal: Vec3i) -> int {
    let d = dot_s(vneg(unit_s(dir)), normal);
    let ct0 = if d > SCALE {
        SCALE as int
    } else {
        d
    };
    if ct0 < -(SCALE as int) {
        -(SCALE as int)
    } else {
        ct0
    }
}

/// The dielectric scatter direction for a given uniform draw `rd` in
/// `[0, 1)`: reflect under total internal reflection or with probability
/// equal to the Schlick reflectance, otherwise refract.
pub open spec fn dielectric_dir_s(
    index: int,
    dir: Vec3i,
    normal: Vec3i,
    front_face: bool,
    rd: int,
) -> Vec3i {
    let ri = if front_face {
        fx_div_s(SCALE as int, index)
    } else {
        index
    };
    let uv = unit_s(dir);
    let ct = dielectric_cos_s(dir, normal);
    let sin2 = (SCALE as int) - fx_mul_s(ct, ct);
    let st = fx_sqrt_s(sin2);
    let cannot_refract = fx_mul_s(ri, st) > SCALE;
    if cannot_refract || reflectance_s(ct, ri) > rd {
        reflect_s(uv, normal)
    } else {
        refract_s(uv, normal, ri)
    }
}

/// One materially possible scatter outcome at a hit: the attenuation and
/// outgoing direction that the surface's law allows for some draw, given
/// the incoming direction `r_dir`.
pub open spec fn scatter_outcome_s(rec: HitRecS, r_dir: Vec3i, att: Vec3i, dir2: Vec3i) -> bool {
    match rec.mat {
        Material::Lambertian(l) => att == l.albedo@ && exists|u: Vec3i|
            is_unit_sample(u) && #[trigger] lambertian_dir_s(rec.normal, u) == dir2,
        Material::Metal(m) => att == m.albedo@ && dot_s(dir2, rec.normal) > 0 && exists|u: Vec3i|
            is_unit_sample(u) && #[trigger] metal_dir_s(r_dir, rec.normal, m.fuzz as int, u)
                == dir2,
        Material::Dielectric(d) => att == (Vec3i {
            x: SCALE as int,
            y: SCALE as int,
            z: SCALE as int,
        }) && exists|rd: int|
            0 <= rd < SCALE && #[trigger] dielectric_dir_s(
                d.refraction_index as int,
                r_dir,
                rec.normal,
                rec.front_face,
                rd,
            ) == dir2,
    }
}

/// A product of a value with itself never falls below zero on the grid.
proof fn lemma_fxmul_sq_nonneg(x: int)
    ensures
        fx_mul_s(x, x) >= 0,
{
    assert(x * x >= 0) by (nonlinear_arith);
    lemma_tdiv_abs(x * x, SCALE as int);
}

impl Material {
    /// Dispatch to the variant's scatter; none means the ray is absorbed.
    pub fn scatter(
        &self,
        r_in: &Ray,
        rec: &HitRecord,
        attenuation: &mut Color,
        scattered: &mut Ray,
    ) -> (sb: bool)
        requires
            material_wf(*self),
            ray_scatter_wf(*r_in),
            rec_scatter_wf(*rec),
        ensures
            sb ==> final(scattered).orig == rec.p,
            sb ==> cbound(final(scattered).dir@, 60_000_000_000),
            sb ==> color01(final(attenuation)@),
            match *self {
                Material::Lambertian(l) => sb && *final(attenuation) == l.albedo && !near_zero_s(
                    final(scattered).dir@,
                ) && exists|u: Vec3i|
                    is_unit_sample(u) && cbound(u, 20_000) && lensq_s(u) >= 2500
                        && #[trigger] lambertian_dir_s(rec@.normal, u) == final(scattered).dir@,
                Material::Metal(m) => {
                    &&& lensq_s(reflect_s(r_in.dir@, rec@.normal)) < 1 ==> !sb
                    &&& lensq_s(reflect_s(r_in.dir@, rec@.normal)) >= 1 ==> {
                        &&& *final(attenuation) == m.albedo
                        &&& final(scattered).orig == rec.p
                        &&& sb == (dot_s(final(scattered).dir@, rec@.normal) > 0)
                        &&& exists|u: Vec3i|
                            is_unit_sample(u) && cbound(u, 20_000) && #[trigger] metal_dir_s(
                                r_in.dir@,
                                rec@.normal,
                                m.fuzz as int,
                                u,
                            ) == final(scattered).dir@
                    }
                    &&& m.fuzz == 0 && lensq_s(reflect_s(r_in.dir@, rec@.normal)) >= 1
                        ==> final(scattered).dir@ == unit_s(reflect_s(r_in.dir@, rec@.normal))
                },
                Material::Dielectric(d) => sb && final(attenuation)@ == (Vec3i {
                    x: SCALE as int,
                    y: SCALE as int,
                    z: SCALE as int,
                }) && exists|rd: int|
                    0 <= rd < SCALE && #[trigger] dielectric_dir_s(
                        d.refraction_index as int,
                        r_in.dir@,
                        rec@.normal,
                        rec.front_face,
                        rd,
                    ) == final(scattered).dir@,
            },
    {
        match self {
            Material::Lambertian(l) => l.scatter(r_in, rec, attenuation, scattered),
            Material::Metal(m) => m.scatter(r_in, rec, attenuation, scattered),
            Material::Dielectric(d) => d.scatter(r_in, rec, attenuation, scattered),
        }
    }

    /// A default material: diffuse black.
    pub fn new() -> (r: Self)
        ensures
            r == (Material::Lambertian(
                Lambertian { albedo: (Vec3 { x: 0i64, y: 0i64, z: 0i64 }) },
            )),
    {
        Material::Lambertian(Lambertian::new(Color::new()))
    }
}

impl Lambertian {
    pub fn new(albedo_t: Color) -> (r: Self)
        ensures
            r.albedo == albedo_t,
    {
        Lambertian { albedo: albedo_t }
    }

    /// Diffuse scatter with the random unit offset passed in: always
    /// succeeds, attenuates by the albedo, and the direction is the law
    /// `lambertian_dir_s` exactly.
    pub fn scatter_with(
        &self,
        rec: &HitRecord,
        u: Vec3,
        attenuation: &mut Color,
        scattered: &mut Ray,
    ) -> (sb: bool)
        requires
            cbound(rec@.normal, 20_000),
            lensq_s(rec@.normal) >= 2500,
            cbound(u@, 20_000),
        ensures
            sb,
            *final(attenuation) == self.albedo,
            final(scattered).orig == rec.p,
            final(scattered).dir@ == lambertian_dir_s(rec@.normal, u@),
            cbound(final(scattered).dir@, 40_000),
            !near_zero_s(final(scattered).dir@),
    {
        proof {
            crate::vec3::lemma_not_near_zero(rec@.normal);
        }
        let mut scatter_direction = rec.normal.add(u);

        if scatter_direction.near_zero() {
            scatter_direction = rec.normal;
        }

        *scattered = Ray::new_use(&rec.p, &scatter_direction);
        *attenuation = self.albedo;
        true
    }

    /// Diffuse scatter: draw the random unit offset, then apply the law.
    pub fn scatter(
        &self,
        _r_in: &Ray,
        rec: &HitRecord,
        attenuation: &mut Color,
        scattered: &mut Ray,
    ) -> (sb: bool)
        requires
            cbound(rec@.normal, 20_000),
            lensq_s(rec@.normal) >= 2500,
        ensures
            sb,
            *final(attenuation) == self.albedo,
            final(scattered).orig == rec.p,
            exists|u: Vec3i|
                is_unit_sample(u) && cbound(u, 20_000) && lensq_s(u) >= 2500
                    && #[trigger] lambertian_dir_s(rec@.normal, u) == final(scattered).dir@,
            cbound(final(scattered).dir@, 40_000),
            !near_zero_s(final(scattered).dir@),
    {
        let u = random_unit_vector();
        let sb = self.scatter_with(rec, u, attenuation, scattered);
        proof {
            assert(is_unit_sample(u@) && cbound(u@, 20_000) && lensq_s(u@) >= 2500
                && lambertian_dir_s(rec@.normal, u@) == scattered.dir@);
        }
        sb
    }
}

impl Metal {
    /// Fuzz is clamped into `[0, 1]` at construction.
    pub fn new(albedo_t: Color, fuzz_t: i64) -> (r: Self)
        ensures
            r.albedo == albedo_t,
            r.fuzz == (if fuzz_t < 0 {
                0i64
            } else if fuzz_t > SCALE {
                SCALE
            } else {
                fuzz_t
            }),
    {
        let fuzz = if fuzz_t < 0 {
            0
        } else if fuzz_t > SCALE {
            SCALE
        } else {
            fuzz_t
        };
        Metal { albedo: albedo_t, fuzz }
    }

    /// Specular scatter with the random unit offset passed in. Succeeds
    /// exactly when the fuzzed direction still points away from the
    /// surface; a reflection too short to normalize on the grid is
    /// absorbed.
    pub fn scatter_with(
        &self,
        r_in: &Ray,
        rec: &HitRecord,
        u: Vec3,
        attenuation: &mut Color,
        scattered: &mut Ray,
    ) -> (sb: bool)
        requires
            0 <= self.fuzz <= SCALE,
            cbound(r_in.dir@, 100_000_000),
            cbound(rec@.normal, 20_000),
            cbound(u@, 20_000),
        ensures
            lensq_s(reflect_s(r_in.dir@, rec@.normal)) < 1 ==> !sb && *final(attenuation) == *old(
                attenuation,
            ) && *final(scattered) == *old(scattered),
            lensq_s(reflect_s(r_in.dir@, rec@.normal)) >= 1 ==> {
                &&& *final(attenuation) == self.albedo
                &&& final(scattered).orig == rec.p
                &&& final(scattered).dir@ == metal_dir_s(
                    r_in.dir@,
                    rec@.normal,
                    self.fuzz as int,
                    u@,
                )
                &&& cbound(final(scattered).dir@, 60_000)
                &&& sb == (dot_s(final(scattered).dir@, rec@.normal) > 0)
            },
    {
        let reflected = reflect(*r_in.direction(), rec.normal);
        let wide = crate::vec3::lensq_wide(&reflected);
        if wide < 1 {
            return false;
        }
        let unit_r = unit_vector(reflected);
        proof {
            lemma_fxmul_bound(self.fuzz as int, u@.x, SCALE as int, 20_000int);
            lemma_fxmul_bound(self.fuzz as int, u@.y, SCALE as int, 20_000int);
            lemma_fxmul_bound(self.fuzz as int, u@.z, SCALE as int, 20_000int);
        }
        let fuzzed = unit_r.add(u.scale(self.fuzz));
        *scattered = Ray::new_use(&rec.p, &fuzzed);
        *attenuation = self.albedo;
        proof {
            lemma_dot_bound(fuzzed@, rec@.normal, 60_000int, 20_000int);
        }
        dot(fuzzed, rec.normal) > 0
    }

    /// Specular scatter: draw the random unit offset, then apply the law.
    pub fn scatter(
        &self,
        r_in: &Ray,
        rec: &HitRecord,
        attenuation: &mut Color,
        scattered: &mut Ray,
    ) -> (sb: bool)
        requires
            0 <= self.fuzz <= SCALE,
            cbound(r_in.dir@, 100_000_000),
            cbound(rec@.normal, 20_000),
        ensures
            lensq_s(reflect_s(r_in.dir@, rec@.normal)) < 1 ==> !sb,
            lensq_s(reflect_s(r_in.dir@, rec@.normal)) >= 1 ==> {
                &&& *final(attenuation) == self.albedo
                &&& final(scattered).orig == rec.p
                &&& cbound(final(scattered).dir@, 60_000)
                &&& sb == (dot_s(final(scattered).dir@, rec@.normal) > 0)
                &&& exists|u: Vec3i|
                    is_unit_sample(u) && cbound(u, 20_000) && #[trigger] metal_dir_s(
                        r_in.dir@,
                        rec@.normal,
                        self.fuzz as int,
                        u,
                    ) == final(scattered).dir@
            },
            self.fuzz == 0 && lensq_s(reflect_s(r_in.dir@, rec@.normal)) >= 1
                ==> final(scattered).dir@ == unit_s(reflect_s(r_in.dir@, rec@.normal)),
    {
        let u = random_unit_vector();
        let sb = self.scatter_with(r_in, rec, u, attenuation, scattered);
        proof {
            if lensq_s(reflect_s(r_in.dir@, rec@.normal)) >= 1 {
                assert(is_unit_sample(u@) && cbound(u@, 20_000) && metal_dir_s(
                    r_in.dir@,
                    rec@.normal,
                    self.fuzz as int,
                    u@,
                ) == scattered.dir@);
                if self.fuzz == 0 {
                    lemma_metal_zero_fuzz(r_in.dir@, rec@.normal, u@);
                }
            }
        }
        sb
    }
}

/// At zero fuzz the perturbation vanishes exactly: the scattered direction
/// is the normalized mirror reflection, whatever the random offset was.
pub proof fn lemma_metal_zero_fuzz(v: Vec3i, n: Vec3i, u: Vec3i)
    ensures
        metal_dir_s(v, n, 0, u) == unit_s(reflect_s(v, n)),
{
    lemma_tdiv_abs(0 * u.x, SCALE as int);
    lemma_tdiv_abs(0 * u.y, SCALE as int);
    lemma_tdiv_abs(0 * u.z, SCALE as int);
    assert(vscale(u, 0) == (Vec3i { x: 0int, y: 0int, z: 0int }));
}


/// At refraction index one the boundary is no boundary: the effective
/// ratio is one on both sides, total internal reflection cannot occur,
/// Schlick's base reflectance vanishes, and whenever the draw selects
/// refraction the direction is the Snell refraction at ratio one, whose
/// component perpendicular to the normal is exactly the incoming unit
/// direction.
pub proof fn lemma_dielectric_unity(dir: Vec3i, normal: Vec3i, front_face: bool, rd: int)
    ensures
        reflectance_s(dielectric_cos_s(dir, normal), SCALE as int) <= rd
            ==> dielectric_dir_s(SCALE as int, dir, normal, front_face, rd) == refract_s(
            unit_s(dir),
            normal,
            SCALE as int,
        ),
        reflectance_s(dielectric_cos_s(dir, normal), SCALE as int) > rd
            ==> dielectric_dir_s(SCALE as int, dir, normal, front_face, rd) == reflect_s(
            unit_s(dir),
            normal,
        ),
        refract_s(unit_s(dir), normal, SCALE as int) == vadd(
            vadd(unit_s(dir), vscale(normal, refract_cos_s(unit_s(dir), normal))),
            vscale(
                normal,
                -fx_sqrt_s(
                    abs_s(
                        (SCALE as int) - lensq_s(
                            vadd(unit_s(dir), vscale(normal, refract_cos_s(unit_s(dir), normal))),
                        ),
                    ),
                ),
            ),
        ),
{
    let s: int = SCALE as int;
    // The effective ratio is one whichever side was struck.
    crate::fixed::lemma_fx_identity(s);
    lemma_div_of0(2 * s);
    assert(fx_div_s(s - s, s + s) == 0) by {
        assert((s - s) * s == 0);
        lemma_tdiv_abs(0, 2 * s);
    }
    lemma_tdiv_abs(0, s);
    assert(fx_mul_s(0, 0) == 0);

    // The sine stays within one, so refraction is never forced out.
    let ct = dielectric_cos_s(dir, normal);
    lemma_fxmul_bound(ct, ct, s, s);
    lemma_fxmul_sq_nonneg(ct);
    let sin2 = s - fx_mul_s(ct, ct);
    lemma_isqrt_exists(sin2 * s);
    let st = fx_sqrt_s(sin2);
    assert(is_isqrt(sin2 * s, st));
    assert(st <= s) by (nonlinear_arith)
        requires
            st >= 0,
            st * st <= sin2 * s,
            0 <= sin2 <= s,
            s == 10000,
    ;
    crate::fixed::lemma_fx_identity(st);

    // Schlick's reflectance reduces to the grazing term alone.
    let om = s - ct;
    let p5 = fx_mul_s(fx_mul_s(fx_mul_s(om, om), fx_mul_s(om, om)), om);
    crate::fixed::lemma_fx_identity(p5);
    assert(reflectance_s(ct, s) == p5);

    // At ratio one the perpendicular component passes through unchanged.
    crate::vec3::lemma_vscale_one(
        vadd(unit_s(dir), vscale(normal, refract_cos_s(unit_s(dir), normal))),
    );
}

impl Dielectric {
    pub fn new(r_index: i64) -> (r: Self)
        ensures
            r.refraction_index == r_index,
    {
        Dielectric { refraction_index: r_index }
    }

    /// Refractive scatter with the uniform draw passed in: always succeeds
    /// with white attenuation, and the direction is the reflect-or-refract
    /// law `dielectric_dir_s` exactly.
    pub fn scatter_with(
        &self,
        r_in: &Ray,
        rec: &HitRecord,
        rand01: i64,
        attenuation: &mut Color,
        scattered: &mut Ray,
    ) -> (sb: bool)
        requires
            1 <= self.refraction_index <= 100_000_000,
            ray_scatter_wf(*r_in),
            cbound(rec@.normal, 20_000),
        ensures
            sb,
            final(attenuation)@ == (Vec3i {
                x: SCALE as int,
                y: SCALE as int,
                z: SCALE as int,
            }),
            final(scattered).orig == rec.p,
            final(scattered).dir@ == dielectric_dir_s(
                self.refraction_index as int,
                r_in.dir@,
                rec@.normal,
                rec.front_face,
                rand01 as int,
            ),
            cbound(final(scattered).dir@, 60_000_000_000),
            (if rec.front_face {
                self.refraction_index >= SCALE
            } else {
                self.refraction_index <= SCALE
            }) ==> cbound(final(scattered).dir@, 1_200_000),
    {
        *attenuation = Color::new_use(SCALE, SCALE, SCALE);
        let ri = if rec.front_face {
            proof {
                lemma_tdiv_abs((SCALE as int) * (SCALE as int), self.refraction_index as int);
                lemma_tdiv_bound(
                    (SCALE as int) * (SCALE as int),
                    self.refraction_index as int,
                    100_000_000int,
                );
                lemma_div_is_ordered(
                    self.refraction_index as int,
                    (SCALE as int) * (SCALE as int),
                    self.refraction_index as int,
                );
                lemma_div_by_self(self.refraction_index as int);
                if self.refraction_index >= SCALE {
                    lemma_div_is_ordered_by_denominator(
                        (SCALE as int) * (SCALE as int),
                        SCALE as int,
                        self.refraction_index as int,
                    );
                    lemma_div_by_multiple(SCALE as int, SCALE as int);
                }
            }
            fx_div(SCALE, self.refraction_index)
        } else {
            self.refraction_index
        };

        let unit_direction = unit_vector(*r_in.direction());
        proof {
            assert(cbound(vneg(unit_direction@), 20_000int));
            lemma_dot_bound(vneg(unit_direction@), rec@.normal, 20_000int, 20_000int);
        }
        let d0 = dot(unit_direction.neg(), rec.normal);
        let ct0 = if d0 > SCALE {
            SCALE
        } else {
            d0
        };
        let cos_theta = if ct0 < -SCALE {
            -SCALE
        } else {
            ct0
        };
        proof {
            lemma_fxmul_bound(cos_theta as int, cos_theta as int, SCALE as int, SCALE as int);
            lemma_fxmul_sq_nonneg(cos_theta as int);
        }
        let sin2 = SCALE - fx_mul(cos_theta, cos_theta);
        let sin_theta = fx_sqrt(sin2);
        proof {
            assert(sin_theta <= 3 * SCALE) by (nonlinear_arith)
                requires
                    (sin_theta as int) * (sin_theta as int) <= (sin2 as int) * (SCALE as int),
                    0 <= sin_theta,
                    0 <= sin2 <= SCALE,
                    SCALE == 10000,
            ;
            lemma_fxmul_bound(ri as int, sin_theta as int, 100_000_000int, 30_000int);
        }
        let cannot_refract = fx_mul(ri, sin_theta) > SCALE;

        let direction: Vec3;
        if cannot_refract || self.reflectance(cos_theta, ri) > rand01 {
            proof {
                lemma_dot_bound(unit_direction@, rec@.normal, 20_000int, 20_000int);
                let d2: int = 2 * dot_s(unit_direction@, rec@.normal);
                lemma_fxmul_bound(d2, rec@.normal.x, 240_000int, 20_000int);
                lemma_fxmul_bound(d2, rec@.normal.y, 240_000int, 20_000int);
                lemma_fxmul_bound(d2, rec@.normal.z, 240_000int, 20_000int);
            }
            direction = reflect(unit_direction, rec.normal);
        } else {
            direction = refract(unit_direction, rec.normal, ri);
            proof {
                if ri <= SCALE {
                    lemma_refract_norm_bound(unit_direction@, rec@.normal, ri as int);
                }
            }
        }

        *scattered = Ray::new_use(&rec.p, &direction);
        true
    }

    /// Refractive scatter: draw the reflectance comparison sample, then
    /// apply the law.
    pub fn scatter(
        &self,
        r_in: &Ray,
        rec: &HitRecord,
        attenuation: &mut Color,
        scattered: &mut Ray,
    ) -> (sb: bool)
        requires
            1 <= self.refraction_index <= 100_000_000,
            ray_scatter_wf(*r_in),
            cbound(rec@.normal, 20_000),
        ensures
            sb,
            final(attenuation)@ == (Vec3i {
                x: SCALE as int,
                y: SCALE as int,
                z: SCALE as int,
            }),
            final(scattered).orig == rec.p,
            cbound(final(scattered).dir@, 60_000_000_000),
            (if rec.front_face {
                self.refraction_index >= SCALE
            } else {
                self.refraction_index <= SCALE
            }) ==> cbound(final(scattered).dir@, 1_200_000),
            exists|rd: int|
                0 <= rd < SCALE && #[trigger] dielectric_dir_s(
                    self.refraction_index as int,
                    r_in.dir@,
                    rec@.normal,
                    rec.front_face,
                    rd,
                ) == final(scattered).dir@,
    {
        let rd = random_double();
        let sb = self.scatter_with(r_in, rec, rd, attenuation, scattered);
        proof {
            assert(0 <= rd < SCALE && dielectric_dir_s(
                self.refraction_index as int,
                r_in.dir@,
                rec@.normal,
                rec.front_face,
                rd as int,
            ) == scattered.dir@);
        }
        sb
    }

    /// Schlick's approximation for the reflectance at a dielectric
    /// boundary.
    fn reflectance(&self, cosine: i64, refraction_index: i64) -> (r: i64)
        requires
            -SCALE <= cosine <= SCALE,
            1 <= refraction_index <= 100_000_000,
        ensures
            r == reflectance_s(cosine as int, refraction_index as int),
    {
        proof {
            let a: int = (SCALE as int) - refraction_index;
            let b: int = (SCALE as int) + refraction_index;
            assert(abs_s(a) <= b);
            assert(abs_s(a * SCALE) <= b * SCALE) by (nonlinear_arith)
                requires
                    abs_s(a) <= b,
                    SCALE == 10000,
            ;
            lemma_tdiv_bound(a * SCALE, b, b * (SCALE as int));
            assert(b * (SCALE as int) == (SCALE as int) * b) by (nonlinear_arith);
            lemma_div_by_multiple(SCALE as int, b);
        }
        let r0a = fx_div(SCALE - refraction_index, SCALE + refraction_index);
        proof {
            lemma_fxmul_bound(r0a as int, r0a as int, SCALE as int, SCALE as int);
            lemma_fxmul_sq_nonneg(r0a as int);
        }
        let r0 = fx_mul(r0a, r0a);
        let om = SCALE - cosine;
        proof {
            lemma_fxmul_bound(om as int, om as int, 20_000int, 20_000int);
            lemma_fxmul_sq_nonneg(om as int);
        }
        let p2 = fx_mul(om, om);
        proof {
            lemma_fxmul_bound(p2 as int, p2 as int, 40_000int, 40_000int);
            lemma_fxmul_sq_nonneg(p2 as int);
        }
        let p4 = fx_mul(p2, p2);
        proof {
            lemma_fxmul_bound(p4 as int, om as int, 160_000int, 20_000int);
        }
        let p5 = fx_mul(p4, om);
        proof {
            lemma_fxmul_bound((SCALE as int) - r0, p5 as int, 10_000int, 320_000int);
        }
        r0 + fx_mul(SCALE - r0, p5)
    }
}

} // verus!
