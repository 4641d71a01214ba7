//! Three-component vectors on the coordinate grid, used both for geometry
//! and for linear RGB radiance.
//!
//! The mathematical model of a vector is `Vec3i`, a triple of unbounded
//! integers; every executable operation is proved to compute exactly the
//! corresponding spec-level operation under truncating grid arithmetic.

use crate::fixed::{
    abs_s, fx_div, fx_div_s, fx_mul, fx_mul_s, fx_sqrt, fx_sqrt_s, is_isqrt, isqrt_s,
    lemma_fxmul_bound, lemma_isqrt_exists, lemma_isqrt_is, lemma_tdiv_abs, lemma_tdiv_bound,
    lemma_tdiv_monotone, lemma_tdiv_neg, tdiv64, tdiv_s, SCALE,
};
use crate::interval::{clamp_s, Interval};
use crate::rtweekend::{random_double, random_double_2};
use vstd::arithmetic::div_mod::{
    lemma_div_by_multiple, lemma_div_is_ordered, lemma_div_pos_is_pos, lemma_fundamental_div_mod,
    lemma_mod_pos_bound,
};
use vstd::prelude::*;

verus! {

/// A vector of unbounded integers: the mathematical value of a `Vec3`.
pub ghost struct Vec3i {
    pub x: int,
    pub y: int,
    pub z: int,
}

/// A vector of grid values. Also used as a color, with `SCALE` standing
/// for channel intensity one.
#[derive(Clone, Copy, PartialEq, Eq, Structural, Debug)]
pub struct Vec3 {
    pub x: i64,
    pub y: i64,
    pub z: i64,
}

pub type Color = Vec3;

impl View for Vec3 {
    type V = Vec3i;

    open spec fn view(&self) -> Vec3i {
        Vec3i { x: self.x as int, y: self.y as int, z: self.z as int }
    }
}

/// All three components fit in a machine word.
pub open spec fn fits3(v: Vec3i) -> bool {
    abs_s(v.x) <= i64::MAX && abs_s(v.y) <= i64::MAX && abs_s(v.z) <= i64::MAX
}

/// All three components are bounded in magnitude by `m`.
pub open spec fn cbound(v: Vec3i, m: int) -> bool {
    abs_s(v.x) <= m && abs_s(v.y) <= m && abs_s(v.z) <= m
}

pub open spec fn vadd(a: Vec3i, b: Vec3i) -> Vec3i {
    Vec3i { x: a.x + b.x, y: a.y + b.y, z: a.z + b.z }
}

pub open spec fn vsub(a: Vec3i, b: Vec3i) -> Vec3i {
    Vec3i { x: a.x - b.x, y: a.y - b.y, z: a.z - b.z }
}

pub open spec fn vneg(a: Vec3i) -> Vec3i {
    Vec3i { x: -a.x, y: -a.y, z: -a.z }
}

/// Component-wise product of grid values.
pub open spec fn vmul(a: Vec3i, b: Vec3i) -> Vec3i {
    Vec3i { x: fx_mul_s(a.x, b.x), y: fx_mul_s(a.y, b.y), z: fx_mul_s(a.z, b.z) }
}

/// Product with the grid scalar `k`.
pub open spec fn vscale(a: Vec3i, k: int) -> Vec3i {
    Vec3i { x: fx_mul_s(k, a.x), y: fx_mul_s(k, a.y), z: fx_mul_s(k, a.z) }
}

/// Quotient by the grid scalar `k`.
pub open spec fn vdiv(a: Vec3i, k: int) -> Vec3i
    recommends
        k != 0,
{
    Vec3i { x: fx_div_s(a.x, k), y: fx_div_s(a.y, k), z: fx_div_s(a.z, k) }
}

/// Dot product: the wide product sum is rescaled once at the end.
pub open spec fn dot_s(a: Vec3i, b: Vec3i) -> int {
    tdiv_s(a.x * b.x + a.y * b.y + a.z * b.z, SCALE as int)
}

pub open spec fn cross_s(a: Vec3i, b: Vec3i) -> Vec3i {
    Vec3i {
        x: fx_mul_s(a.y, b.z) - fx_mul_s(a.z, b.y),
        y: fx_mul_s(a.z, b.x) - fx_mul_s(a.x, b.z),
        z: fx_mul_s(a.x, b.y) - fx_mul_s(a.y, b.x),
    }
}

pub open spec fn lensq_s(v: Vec3i) -> int {
    dot_s(v, v)
}

pub open spec fn len_s(v: Vec3i) -> int {
    isqrt_s(lensq_s(v) * SCALE)
}

/// The unit vector on the grid: each component is divided by the length.
pub open spec fn unit_s(v: Vec3i) -> Vec3i {
    Vec3i {
        x: tdiv_s(v.x * SCALE, len_s(v)),
        y: tdiv_s(v.y * SCALE, len_s(v)),
        z: tdiv_s(v.z * SCALE, len_s(v)),
    }
}

/// A possible draw of the unit-direction sampler: the normalization of
/// some point strictly inside the unit sphere, at least one grid step
/// from the origin.
pub open spec fn is_unit_sample(u: Vec3i) -> bool {
    exists|p: Vec3i|
        cbound(p, SCALE as int) && 1 <= lensq_s(p) < SCALE && #[trigger] unit_s(p) == u
}

/// Below one grid step in every component.
pub open spec fn near_zero_s(v: Vec3i) -> bool {
    abs_s(v.x) < NEAR_ZERO_EPS && abs_s(v.y) < NEAR_ZERO_EPS && abs_s(v.z) < NEAR_ZERO_EPS
}

/// The degenerate-direction threshold: anything under one grid step is
/// treated as zero.
pub const NEAR_ZERO_EPS: i64 = 1;

impl Default for Vec3 {
    /// The zero vector, as `new` builds it.
    fn default() -> (r: Self)
        ensures
            r@ == (Vec3i { x: 0int, y: 0int, z: 0int }),
    {
        Vec3::new()
    }
}

impl Vec3 {
    /// The zero vector.
    pub fn new() -> (r: Self)
        ensures
            r@ == (Vec3i { x: 0int, y: 0int, z: 0int }),
    {
        Vec3 { x: 0, y: 0, z: 0 }
    }

    pub fn new_use(x: i64, y: i64, z: i64) -> (r: Self)
        ensures
            r@ == (Vec3i { x: x as int, y: y as int, z: z as int }),
    {
        Vec3 { x, y, z }
    }

    pub fn x(&self) -> (r: i64)
        ensures
            r == self@.x,
    {
        self.x
    }

    pub fn y(&self) -> (r: i64)
        ensures
            r == self@.y,
    {
        self.y
    }

    pub fn z(&self) -> (r: i64)
        ensures
            r == self@.z,
    {
        self.z
    }

    pub fn add(self, rhs: Vec3) -> (r: Vec3)
        requires
            fits3(vadd(self@, rhs@)),
        ensures
            r@ == vadd(self@, rhs@),
    {
        Vec3 { x: self.x + rhs.x, y: self.y + rhs.y, z: self.z + rhs.z }
    }

    pub fn sub(self, rhs: Vec3) -> (r: Vec3)
        requires
            fits3(vsub(self@, rhs@)),
        ensures
            r@ == vsub(self@, rhs@),
    {
        Vec3 { x: self.x - rhs.x, y: self.y - rhs.y, z: self.z - rhs.z }
    }

    pub fn neg(self) -> (r: Vec3)
        requires
            fits3(vneg(self@)),
        ensures
            r@ == vneg(self@),
    {
        Vec3 { x: -self.x, y: -self.y, z: -self.z }
    }

    /// Component-wise product, as on colors.
    pub fn mul(self, rhs: Vec3) -> (r: Vec3)
        requires
            fits3(vmul(self@, rhs@)),
        ensures
            r@ == vmul(self@, rhs@),
    {
        Vec3 { x: fx_mul(self.x, rhs.x), y: fx_mul(self.y, rhs.y), z: fx_mul(self.z, rhs.z) }
    }

    /// Product with the grid scalar `k`.
    pub fn scale(self, k: i64) -> (r: Vec3)
        requires
            fits3(vscale(self@, k as int)),
        ensures
            r@ == vscale(self@, k as int),
    {
        Vec3 { x: fx_mul(k, self.x), y: fx_mul(k, self.y), z: fx_mul(k, self.z) }
    }

    /// Quotient by the grid scalar `k`.
    pub fn div(self, k: i64) -> (r: Vec3)
        requires
            k != 0,
            fits3(vdiv(self@, k as int)),
        ensures
            r@ == vdiv(self@, k as int),
    {
        Vec3 { x: fx_div(self.x, k), y: fx_div(self.y, k), z: fx_div(self.z, k) }
    }

    pub fn length_squared(&self) -> (r: i64)
        requires
            cbound(self@, 0x4000_0000_0000_0000),
            lensq_s(self@) <= i64::MAX,
        ensures
            r == lensq_s(self@),
            r >= 0,
    {
        proof {
            lemma_lensq_nonneg(self@);
        }
        dot(*self, *self)
    }

    pub fn length(&self) -> (r: i64)
        requires
            cbound(self@, 0x4000_0000_0000_0000),
            lensq_s(self@) <= i64::MAX,
        ensures
            r == len_s(self@),
            is_isqrt(lensq_s(self@) * SCALE, r as int),
            r >= 0,
    {
        let sq = self.length_squared();
        fx_sqrt(sq)
    }

    /// A vector with three uniform random components in `[0, 1)`.
    pub fn random() -> (r: Vec3)
        ensures
            0 <= r@.x < SCALE,
            0 <= r@.y < SCALE,
            0 <= r@.z < SCALE,
    {
        Vec3::new_use(random_double(), random_double(), random_double())
    }

    /// A vector with three uniform random components in `[min, max)`.
    pub fn random_2(min: i64, max: i64) -> (r: Vec3)
        requires
            min < max,
        ensures
            min <= r@.x < max,
            min <= r@.y < max,
            min <= r@.z < max,
    {
        Vec3::new_use(
            random_double_2(min, max),
            random_double_2(min, max),
            random_double_2(min, max),
        )
    }

    pub fn near_zero(&self) -> (r: bool)
        ensures
            r == near_zero_s(self@),
    {
        (-NEAR_ZERO_EPS < self.x && self.x < NEAR_ZERO_EPS) && (-NEAR_ZERO_EPS < self.y
            && self.y < NEAR_ZERO_EPS) && (-NEAR_ZERO_EPS < self.z && self.z < NEAR_ZERO_EPS)
    }
}

/// The squared magnitude of a dot product of bounded vectors.
pub proof fn lemma_dot_bound(a: Vec3i, b: Vec3i, ma: int, mb: int)
    requires
        cbound(a, ma),
        cbound(b, mb),
        0 <= ma,
        0 <= mb,
    ensures
        abs_s(dot_s(a, b)) <= (3 * ma * mb) / (SCALE as int),
        abs_s(dot_s(a, b)) <= 3 * ma * mb,
{
    assert(abs_s(a.x * b.x) <= ma * mb) by (nonlinear_arith)
        requires
            abs_s(a.x) <= ma,
            abs_s(b.x) <= mb,
            0 <= ma,
            0 <= mb,
    ;
    assert(abs_s(a.y * b.y) <= ma * mb) by (nonlinear_arith)
        requires
            abs_s(a.y) <= ma,
            abs_s(b.y) <= mb,
            0 <= ma,
            0 <= mb,
    ;
    assert(abs_s(a.z * b.z) <= ma * mb) by (nonlinear_arith)
        requires
            abs_s(a.z) <= ma,
            abs_s(b.z) <= mb,
            0 <= ma,
            0 <= mb,
    ;
    assert(3 * ma * mb == ma * mb + ma * mb + ma * mb) by (nonlinear_arith);
    assert(abs_s(a.x * b.x + a.y * b.y + a.z * b.z) <= 3 * ma * mb);
    lemma_tdiv_bound(a.x * b.x + a.y * b.y + a.z * b.z, SCALE as int, 3 * ma * mb);
}

/// A sum of squares is nonnegative, so squared lengths are nonnegative.
pub proof fn lemma_lensq_nonneg(v: Vec3i)
    ensures
        lensq_s(v) >= 0,
        v.x * v.x + v.y * v.y + v.z * v.z >= 0,
        v.x * v.x >= 0,
        v.y * v.y >= 0,
        v.z * v.z >= 0,
{
    assert(v.x * v.x >= 0) by (nonlinear_arith);
    assert(v.y * v.y >= 0) by (nonlinear_arith);
    assert(v.z * v.z >= 0) by (nonlinear_arith);
    lemma_div_pos_is_pos(v.x * v.x + v.y * v.y + v.z * v.z, SCALE as int);
}

pub fn dot(v: Vec3, rhs: Vec3) -> (r: i64)
    requires
        cbound(v@, 0x4000_0000_0000_0000),
        cbound(rhs@, 0x4000_0000_0000_0000),
        abs_s(dot_s(v@, rhs@)) <= i64::MAX,
    ensures
        r == dot_s(v@, rhs@),
{
    proof {
        let m: int = 0x4000_0000_0000_0000;
        assert(abs_s(v@.x * rhs@.x) <= m * m) by (nonlinear_arith)
            requires
                abs_s(v@.x) <= m,
                abs_s(rhs@.x) <= m,
                m == 0x4000_0000_0000_0000,
        ;
        assert(abs_s(v@.y * rhs@.y) <= m * m) by (nonlinear_arith)
            requires
                abs_s(v@.y) <= m,
                abs_s(rhs@.y) <= m,
                m == 0x4000_0000_0000_0000,
        ;
        assert(abs_s(v@.z * rhs@.z) <= m * m) by (nonlinear_arith)
            requires
                abs_s(v@.z) <= m,
                abs_s(rhs@.z) <= m,
                m == 0x4000_0000_0000_0000,
        ;
    }
    let px: i128 = (v.x as i128) * (rhs.x as i128);
    let py: i128 = (v.y as i128) * (rhs.y as i128);
    let pz: i128 = (v.z as i128) * (rhs.z as i128);
    let q = crate::fixed::tdiv128(px + py + pz, SCALE as i128);
    q as i64
}

pub fn cross(v: Vec3, rhs: Vec3) -> (r: Vec3)
    requires
        abs_s(fx_mul_s(v@.y, rhs@.z)) <= i64::MAX,
        abs_s(fx_mul_s(v@.z, rhs@.y)) <= i64::MAX,
        abs_s(fx_mul_s(v@.z, rhs@.x)) <= i64::MAX,
        abs_s(fx_mul_s(v@.x, rhs@.z)) <= i64::MAX,
        abs_s(fx_mul_s(v@.x, rhs@.y)) <= i64::MAX,
        abs_s(fx_mul_s(v@.y, rhs@.x)) <= i64::MAX,
        fits3(cross_s(v@, rhs@)),
    ensures
        r@ == cross_s(v@, rhs@),
{
    Vec3 {
        x: fx_mul(v.y, rhs.z) - fx_mul(v.z, rhs.y),
        y: fx_mul(v.z, rhs.x) - fx_mul(v.x, rhs.z),
        z: fx_mul(v.x, rhs.y) - fx_mul(v.y, rhs.x),
    }
}


/// Reflection of `v` about the unit-length normal `n`.
pub open spec fn reflect_s(v: Vec3i, n: Vec3i) -> Vec3i {
    vsub(v, vscale(n, 2 * dot_s(v, n)))
}

/// Refraction by Snell's law: the component of the outgoing direction
/// perpendicular to the normal, then the parallel component, exactly as the
/// executable code computes them.
pub open spec fn refract_cos_s(uv: Vec3i, n: Vec3i) -> int {
    let d = dot_s(vneg(uv), n);
    if d > SCALE {
        SCALE as int
    } else {
        d
    }
}

/// The component of the refracted direction perpendicular to the normal.
pub open spec fn refract_perp_s(uv: Vec3i, n: Vec3i, ri: int) -> Vec3i {
    vscale(vadd(uv, vscale(n, refract_cos_s(uv, n))), ri)
}

pub open spec fn refract_s(uv: Vec3i, n: Vec3i, ri: int) -> Vec3i {
    let perp = refract_perp_s(uv, n, ri);
    let k = SCALE - lensq_s(perp);
    let sq = fx_sqrt_s(abs_s(k));
    vadd(perp, vscale(n, -sq))
}

/// A vector whose squared length is at most one unit has every component
/// within one unit.
pub proof fn lemma_comp_from_lensq(v: Vec3i)
    requires
        lensq_s(v) <= SCALE,
    ensures
        cbound(v, SCALE as int),
{
    let s: int = SCALE as int;
    let q = v.x * v.x + v.y * v.y + v.z * v.z;
    lemma_lensq_nonneg(v);
    lemma_tdiv_abs(q, s);
    lemma_fundamental_div_mod(q, s);
    lemma_mod_pos_bound(q, s);
    assert(q < (lensq_s(v) + 1) * s) by (nonlinear_arith)
        requires
            q == s * lensq_s(v) + q % s,
            q % s < s,
    ;
    assert(abs_s(v.x) <= s && abs_s(v.y) <= s && abs_s(v.z) <= s) by (nonlinear_arith)
        requires
            v.x * v.x <= q,
            v.y * v.y <= q,
            v.z * v.z <= q,
            q < (lensq_s(v) + 1) * s,
            lensq_s(v) <= s,
            s == 10000,
    ;
}

/// Square-root gamma transfer: zero at and below zero, the grid square root
/// above it.
pub open spec fn gamma_s(x: int) -> int {
    if x > 0 {
        fx_sqrt_s(x)
    } else {
        0
    }
}

/// A component of a vector divided by the vector's length stays within
/// twice the grid unit.
proof fn lemma_unit_comp(c: int, q: int, lsq: int, len: int)
    requires
        0 <= q,
        c * c <= q,
        lsq == q / (SCALE as int),
        lsq >= 1,
        is_isqrt(lsq * (SCALE as int), len),
    ensures
        100 <= len,
        abs_s(c) <= 2 * len,
        abs_s(tdiv_s(c * (SCALE as int), len)) <= 2 * (SCALE as int),
{
    let s: int = SCALE as int;
    assert(lsq * s >= s) by (nonlinear_arith)
        requires
            lsq >= 1,
            s == 10000,
    ;
    if len <= 99 {
        assert((len + 1) * (len + 1) <= 10000) by (nonlinear_arith)
            requires
                0 <= len,
                len <= 99,
        ;
        assert(false);
    }
    lemma_fundamental_div_mod(q, s);
    lemma_mod_pos_bound(q, s);
    assert(c * c < 2 * (lsq * s)) by (nonlinear_arith)
        requires
            c * c <= q,
            q == s * lsq + q % s,
            q % s < s,
            1 <= lsq,
            s == 10000,
    ;
    assert(abs_s(c) <= 2 * len) by (nonlinear_arith)
        requires
            c * c < 2 * (lsq * s),
            lsq * s < (len + 1) * (len + 1),
            100 <= len,
    ;
    assert(abs_s(c * s) <= (2 * len) * s) by (nonlinear_arith)
        requires
            abs_s(c) <= 2 * len,
            s == 10000,
            0 <= len,
    ;
    lemma_tdiv_bound(c * s, len, (2 * len) * s);
    assert((2 * len) * s == (2 * s) * len) by (nonlinear_arith);
    lemma_div_by_multiple(2 * s, len);
}

/// A largest component, divided by the vector's length, keeps at least half
/// the grid unit.
proof fn lemma_unit_comp_large(c: int, q: int, lsq: int, len: int)
    requires
        0 <= q,
        c * c <= q,
        3 * (c * c) >= q,
        lsq == q / (SCALE as int),
        lsq >= 1,
        is_isqrt(lsq * (SCALE as int), len),
    ensures
        abs_s(tdiv_s(c * (SCALE as int), len)) >= 5000,
{
    let s: int = SCALE as int;
    lemma_unit_comp(c, q, lsq, len);
    lemma_fundamental_div_mod(q, s);
    lemma_mod_pos_bound(q, s);
    assert(lsq * s <= q) by (nonlinear_arith)
        requires
            q == s * lsq + q % s,
            q % s >= 0,
    ;
    assert(len * len <= 3 * (c * c));
    assert(2 * abs_s(c) >= len) by (nonlinear_arith)
        requires
            len * len <= 3 * (c * c),
            0 <= len,
    ;
    assert(abs_s(c) * s >= len * 5000) by (nonlinear_arith)
        requires
            2 * abs_s(c) >= len,
            s == 10000,
    ;
    assert(abs_s(c * s) == abs_s(c) * s) by (nonlinear_arith)
        requires
            s > 0,
    ;
    lemma_tdiv_abs(c * s, len);
    lemma_tdiv_abs(len * 5000, len);
    lemma_tdiv_monotone(len * 5000, abs_s(c) * s, len);
    assert(len * 5000 == 5000 * len);
    lemma_div_by_multiple(5000, len);
}

/// `v / |v|`. On the grid this requires a direction of at least one grid
/// step of squared length; the result is unit length up to grid rounding,
/// bounded by two, and keeps a component of at least half a unit.
pub fn unit_vector(v: Vec3) -> (r: Vec3)
    requires
        cbound(v@, 100_000_000_000_000_000),
        lensq_s(v@) >= 1,
    ensures
        r@ == unit_s(v@),
        cbound(r@, 2 * SCALE),
        lensq_s(r@) >= 2500,
{
    proof {
        let m: int = 100_000_000_000_000_000;
        assert(v@.x * v@.x <= m * m && v@.x * v@.x >= 0) by (nonlinear_arith)
            requires
                abs_s(v@.x) <= m,
                m == 100_000_000_000_000_000,
        ;
        assert(v@.y * v@.y <= m * m && v@.y * v@.y >= 0) by (nonlinear_arith)
            requires
                abs_s(v@.y) <= m,
                m == 100_000_000_000_000_000,
        ;
        assert(v@.z * v@.z <= m * m && v@.z * v@.z >= 0) by (nonlinear_arith)
            requires
                abs_s(v@.z) <= m,
                m == 100_000_000_000_000_000,
        ;
    }
    let px: i128 = (v.x as i128) * (v.x as i128);
    let py: i128 = (v.y as i128) * (v.y as i128);
    let pz: i128 = (v.z as i128) * (v.z as i128);
    let q: i128 = px + py + pz;
    let lsq: i128 = crate::fixed::tdiv128(q, SCALE as i128);
    proof {
        lemma_tdiv_abs(q as int, SCALE as int);
        assert(lsq == lensq_s(v@));
        assert(lsq >= 1);
        lemma_tdiv_bound(q as int, SCALE as int, 30_000_000_000_000_000_000_000_000_000_000_000int);
    }
    let m128: u128 = (lsq as u128) * (SCALE as u128);
    let len128 = crate::fixed::isqrt128(m128);
    proof {
        assert(len128 <= 0xFFFF_FFFF_FFFF_FFFFu128);
        assert(len128 >= 1) by (nonlinear_arith)
            requires
                (len128 as int + 1) * (len128 as int + 1) > m128,
                m128 >= 10000,
        ;
    }
    let len: i128 = len128 as i128;
    proof {
        lemma_unit_comp(v@.x, q as int, lsq as int, len as int);
        lemma_unit_comp(v@.y, q as int, lsq as int, len as int);
        lemma_unit_comp(v@.z, q as int, lsq as int, len as int);
        lemma_isqrt_is((lsq as int) * (SCALE as int), len as int);
        assert(len_s(v@) == len);
    }
    let rx = crate::fixed::tdiv128((v.x as i128) * (SCALE as i128), len) as i64;
    let ry = crate::fixed::tdiv128((v.y as i128) * (SCALE as i128), len) as i64;
    let rz = crate::fixed::tdiv128((v.z as i128) * (SCALE as i128), len) as i64;
    let r = Vec3 { x: rx, y: ry, z: rz };
    proof {
        assert(r@ == unit_s(v@));
        if v@.x * v@.x >= v@.y * v@.y && v@.x * v@.x >= v@.z * v@.z {
            lemma_unit_comp_large(v@.x, q as int, lsq as int, len as int);
            assert(abs_s(r@.x) >= 5000);
        } else if v@.y * v@.y >= v@.z * v@.z {
            lemma_unit_comp_large(v@.y, q as int, lsq as int, len as int);
            assert(abs_s(r@.y) >= 5000);
        } else {
            lemma_unit_comp_large(v@.z, q as int, lsq as int, len as int);
            assert(abs_s(r@.z) >= 5000);
        }
        lemma_unit_lensq_lower(r@);
    }
    r
}

/// A vector with a component of at least half a unit has a squared length
/// of at least a quarter unit.
proof fn lemma_unit_lensq_lower(r: Vec3i)
    requires
        abs_s(r.x) >= 5000 || abs_s(r.y) >= 5000 || abs_s(r.z) >= 5000,
    ensures
        lensq_s(r) >= 2500,
{
    lemma_lensq_nonneg(r);
    assert(abs_s(r.x) >= 5000 ==> r.x * r.x >= 25_000_000) by (nonlinear_arith);
    assert(abs_s(r.y) >= 5000 ==> r.y * r.y >= 25_000_000) by (nonlinear_arith);
    assert(abs_s(r.z) >= 5000 ==> r.z * r.z >= 25_000_000) by (nonlinear_arith);
    lemma_tdiv_monotone(25_000_000, r.x * r.x + r.y * r.y + r.z * r.z, SCALE as int);
    lemma_tdiv_abs(25_000_000, SCALE as int);
}

/// A random point strictly inside the unit sphere, at least one grid step
/// from the origin so that it can safely be normalized. After a bounded
/// number of rejected draws a fixed interior point is used, which keeps the
/// sampler total.
pub fn random_in_unit_sphere() -> (r: Vec3)
    ensures
        cbound(r@, SCALE as int),
        1 <= lensq_s(r@) < SCALE,
{
    let mut tries: u8 = 0;
    while tries < 64
        decreases 64 - tries,
    {
        let p = Vec3::random_2(-SCALE, SCALE);
        proof {
            lemma_dot_bound(p@, p@, SCALE as int, SCALE as int);
        }
        let lq = p.length_squared();
        if 0 < lq && lq < SCALE {
            return p;
        }
        tries = tries + 1;
    }
    let p = Vec3::new_use(5000, 0, 0);
    proof {
        lemma_tdiv_abs(25_000_000, SCALE as int);
    }
    p
}

/// A random direction of unit length up to grid rounding: the
/// normalization of a point drawn strictly inside the unit sphere.
pub fn random_unit_vector() -> (r: Vec3)
    ensures
        cbound(r@, 2 * SCALE),
        lensq_s(r@) >= 2500,
        is_unit_sample(r@),
{
    let p = random_in_unit_sphere();
    let r = unit_vector(p);
    proof {
        assert(cbound(p@, SCALE as int) && 1 <= lensq_s(p@) < SCALE && unit_s(p@) == r@);
    }
    r
}

/// A random point strictly inside the unit disk of the xy-plane, at least
/// one grid step from the origin; bounded retries as for the sphere.
pub fn random_in_unit_disk() -> (r: Vec3)
    ensures
        cbound(r@, SCALE as int),
        1 <= lensq_s(r@) < SCALE,
        r@.z == 0,
{
    let mut tries: u8 = 0;
    while tries < 64
        decreases 64 - tries,
    {
        let p = Vec3::new_use(random_double_2(-SCALE, SCALE), random_double_2(-SCALE, SCALE), 0);
        proof {
            lemma_dot_bound(p@, p@, SCALE as int, SCALE as int);
        }
        let lq = p.length_squared();
        if 0 < lq && lq < SCALE {
            return p;
        }
        tries = tries + 1;
    }
    let p = Vec3::new_use(5000, 0, 0);
    proof {
        lemma_tdiv_abs(25_000_000, SCALE as int);
    }
    p
}

/// A random unit direction in the hemisphere of the given normal: a
/// normalized unit-sphere sample, or its negation.
pub fn random_on_hemisphere(normal: Vec3) -> (r: Vec3)
    requires
        cbound(normal@, 2 * SCALE),
    ensures
        cbound(r@, 2 * SCALE),
        lensq_s(r@) >= 2500,
        dot_s(r@, normal@) >= 0,
        exists|p: Vec3i|
            cbound(p, SCALE as int) && 1 <= lensq_s(p) < SCALE && (#[trigger] unit_s(p) == r@
                || vneg(unit_s(p)) == r@),
{
    let on_unit_sphere = random_unit_vector();
    proof {
        assert(cbound(on_unit_sphere@, 20_000int) && cbound(normal@, 20_000int));
        lemma_dot_bound(on_unit_sphere@, normal@, 20_000int, 20_000int);
    }
    let ghost q = choose|p: Vec3i|
        cbound(p, SCALE as int) && 1 <= lensq_s(p) < SCALE && #[trigger] unit_s(p)
            == on_unit_sphere@;
    let d = dot(on_unit_sphere, normal);
    if d > 0 {
        on_unit_sphere
    } else {
        let r = on_unit_sphere.neg();
        proof {
            lemma_neg_dot_lensq(on_unit_sphere@, normal@);
            assert(cbound(q, SCALE as int) && 1 <= lensq_s(q) < SCALE && vneg(unit_s(q)) == r@);
        }
        r
    }
}

/// A vector of at least a quarter unit of squared length cannot be
/// near-zero.
pub proof fn lemma_not_near_zero(v: Vec3i)
    requires
        lensq_s(v) >= 2500,
    ensures
        !near_zero_s(v),
{
    if near_zero_s(v) {
        assert(v.x == 0 && v.y == 0 && v.z == 0);
        lemma_tdiv_abs(0, SCALE as int);
        assert(lensq_s(v) == 0);
    }
}

/// Negating a vector negates its dot products and keeps its squared length.
pub proof fn lemma_neg_dot_lensq(a: Vec3i, b: Vec3i)
    ensures
        dot_s(vneg(a), b) == -dot_s(a, b),
        lensq_s(vneg(a)) == lensq_s(a),
{
    assert((-a.x) * b.x == -(a.x * b.x)) by (nonlinear_arith);
    assert((-a.y) * b.y == -(a.y * b.y)) by (nonlinear_arith);
    assert((-a.z) * b.z == -(a.z * b.z)) by (nonlinear_arith);
    lemma_tdiv_neg(a.x * b.x + a.y * b.y + a.z * b.z, SCALE as int);
    assert((-a.x) * (-a.x) == a.x * a.x) by (nonlinear_arith);
    assert((-a.y) * (-a.y) == a.y * a.y) by (nonlinear_arith);
    assert((-a.z) * (-a.z) == a.z * a.z) by (nonlinear_arith);
}

/// Scaling by the grid unit is the identity on vectors.
pub proof fn lemma_vscale_one(v: Vec3i)
    ensures
        vscale(v, SCALE as int) == v,
{
    crate::fixed::lemma_fx_identity(v.x);
    crate::fixed::lemma_fx_identity(v.y);
    crate::fixed::lemma_fx_identity(v.z);
}

/// Negating the second argument negates a dot product.
pub proof fn lemma_dot_neg_right(a: Vec3i, b: Vec3i)
    ensures
        dot_s(a, vneg(b)) == -dot_s(a, b),
{
    assert(a.x * (-b.x) == -(a.x * b.x)) by (nonlinear_arith);
    assert(a.y * (-b.y) == -(a.y * b.y)) by (nonlinear_arith);
    assert(a.z * (-b.z) == -(a.z * b.z)) by (nonlinear_arith);
    lemma_tdiv_neg(a.x * b.x + a.y * b.y + a.z * b.z, SCALE as int);
}

/// `v - 2 (v . n) n`, the specular mirror of `v` about `n`.
pub fn reflect(v: Vec3, n: Vec3) -> (r: Vec3)
    requires
        cbound(v@, 1_000_000_000_000),
        cbound(n@, 3 * SCALE),
    ensures
        r@ == reflect_s(v@, n@),
        cbound(r@, 100_000_000_000_000),
{
    proof {
        assert(cbound(n@, 30_000int));
        lemma_dot_bound(v@, n@, 1_000_000_000_000int, 30_000int);
        let d2: int = 2 * dot_s(v@, n@);
        lemma_fxmul_bound(d2, n@.x, 18_000_000_000_000int, 30_000int);
        lemma_fxmul_bound(d2, n@.y, 18_000_000_000_000int, 30_000int);
        lemma_fxmul_bound(d2, n@.z, 18_000_000_000_000int, 30_000int);
    }
    let d = dot(v, n);
    v.sub(n.scale(2 * d))
}


/// At a ratio of at most one, refraction of unit-grade vectors stays
/// within about a hundred units componentwise.
pub proof fn lemma_refract_norm_bound(uv: Vec3i, n: Vec3i, ri: int)
    requires
        cbound(uv, 2 * SCALE),
        cbound(n, 2 * SCALE),
        1 <= ri <= SCALE,
    ensures
        cbound(refract_s(uv, n, ri), 1_200_000),
{
    let s: int = SCALE as int;
    let ct = refract_cos_s(uv, n);
    assert(cbound(vneg(uv), 20_000int));
    lemma_dot_bound(vneg(uv), n, 20_000int, 20_000int);
    lemma_fxmul_bound(ct, n.x, 120_000int, 20_000int);
    lemma_fxmul_bound(ct, n.y, 120_000int, 20_000int);
    lemma_fxmul_bound(ct, n.z, 120_000int, 20_000int);
    let inner = vadd(uv, vscale(n, ct));
    assert(cbound(inner, 260_000int));
    lemma_fxmul_bound(ri, inner.x, 10_000int, 260_000int);
    lemma_fxmul_bound(ri, inner.y, 10_000int, 260_000int);
    lemma_fxmul_bound(ri, inner.z, 10_000int, 260_000int);
    let perp = refract_perp_s(uv, n, ri);
    assert(cbound(perp, 260_000int));
    lemma_dot_bound(perp, perp, 260_000int, 260_000int);
    lemma_lensq_nonneg(perp);
    let k = s - lensq_s(perp);
    assert(abs_s(k) <= 20_290_000);
    lemma_isqrt_exists(abs_s(k) * s);
    let sq = fx_sqrt_s(abs_s(k));
    assert(is_isqrt(abs_s(k) * s, sq));
    assert(sq <= 460_000) by (nonlinear_arith)
        requires
            0 <= sq,
            sq * sq <= abs_s(k) * s,
            abs_s(k) <= 20_290_000,
            s == 10000,
    ;
    lemma_fxmul_bound(-sq, n.x, 460_000int, 20_000int);
    lemma_fxmul_bound(-sq, n.y, 460_000int, 20_000int);
    lemma_fxmul_bound(-sq, n.z, 460_000int, 20_000int);
}

/// Snell refraction of the unit direction `uv` at a surface with unit
/// normal `n` and refraction ratio `ri`.
pub fn refract(uv: Vec3, n: Vec3, etai_over_etat: i64) -> (r: Vec3)
    requires
        cbound(uv@, 3 * SCALE),
        cbound(n@, 3 * SCALE),
        1 <= etai_over_etat <= 100_000_000,
    ensures
        r@ == refract_s(uv@, n@, etai_over_etat as int),
        cbound(r@, 60_000_000_000),
        lensq_s(refract_perp_s(uv@, n@, etai_over_etat as int)) <= SCALE ==> cbound(r@, 40_000),
{
    proof {
        assert(cbound(vneg(uv@), 30_000int) && cbound(n@, 30_000int));
        lemma_dot_bound(vneg(uv@), n@, 30_000int, 30_000int);
    }
    let d0 = dot(uv.neg(), n);
    let ct = if d0 > SCALE {
        SCALE
    } else {
        d0
    };
    proof {
        lemma_fxmul_bound(ct as int, n@.x, 270_000int, 30_000int);
        lemma_fxmul_bound(ct as int, n@.y, 270_000int, 30_000int);
        lemma_fxmul_bound(ct as int, n@.z, 270_000int, 30_000int);
    }
    let inner = uv.add(n.scale(ct));
    proof {
        lemma_fxmul_bound(etai_over_etat as int, inner@.x, 100_000_000int, 840_000int);
        lemma_fxmul_bound(etai_over_etat as int, inner@.y, 100_000_000int, 840_000int);
        lemma_fxmul_bound(etai_over_etat as int, inner@.z, 100_000_000int, 840_000int);
    }
    let perp = inner.scale(etai_over_etat);
    proof {
        lemma_dot_bound(perp@, perp@, 8_400_000_000int, 8_400_000_000int);
        lemma_lensq_nonneg(perp@);
    }
    let lp = perp.length_squared();
    let k = SCALE - lp;
    let kk = if k < 0 {
        -k
    } else {
        k
    };
    let sq = fx_sqrt(kk);
    proof {
        assert(sq <= 15_000_000_000i64) by (nonlinear_arith)
            requires
                (sq as int) * (sq as int) <= (kk as int) * (SCALE as int),
                0 <= sq,
                0 <= kk <= 22_000_000_000_000_000i64,
                SCALE == 10000,
        ;
        lemma_fxmul_bound(-(sq as int), n@.x, 15_000_000_000int, 30_000int);
        lemma_fxmul_bound(-(sq as int), n@.y, 15_000_000_000int, 30_000int);
        lemma_fxmul_bound(-(sq as int), n@.z, 15_000_000_000int, 30_000int);
        if lp <= SCALE {
            lemma_comp_from_lensq(perp@);
            assert(sq <= SCALE) by (nonlinear_arith)
                requires
                    (sq as int) * (sq as int) <= (kk as int) * (SCALE as int),
                    0 <= sq,
                    0 <= kk <= SCALE,
                    SCALE == 10000,
            ;
            lemma_fxmul_bound(-(sq as int), n@.x, SCALE as int, 30_000int);
            lemma_fxmul_bound(-(sq as int), n@.y, SCALE as int, 30_000int);
            lemma_fxmul_bound(-(sq as int), n@.z, SCALE as int, 30_000int);
        }
    }
    let par = n.scale(-sq);
    perp.add(par)
}

/// The gamma transfer applied to one linear channel: the square root of a
/// positive value, zero otherwise. Negative inputs map to zero.
pub fn linear_to_gamma(linear_component: i64) -> (r: i64)
    ensures
        r == gamma_s(linear_component as int),
        r >= 0,
        linear_component <= SCALE ==> r <= SCALE,
        linear_component > 0 ==> is_isqrt(linear_component * SCALE, r as int),
{
    if linear_component > 0 {
        let r = fx_sqrt(linear_component);
        proof {
            if linear_component <= SCALE {
                assert(r <= SCALE) by (nonlinear_arith)
                    requires
                        (r as int) * (r as int) <= (linear_component as int) * (SCALE as int),
                        0 <= r,
                        0 < linear_component <= SCALE,
                        SCALE == 10000,
                ;
            }
        }
        r
    } else {
        0
    }
}


/// Squared length computed in wide arithmetic, for vectors whose squares
/// would not fit a machine word.
pub(crate) fn lensq_wide(v: &Vec3) -> (r: i128)
    requires
        cbound(v@, 100_000_000_000_000_000),
    ensures
        r == lensq_s(v@),
        r >= 0,
{
    proof {
        let m: int = 100_000_000_000_000_000;
        assert(v@.x * v@.x <= m * m && v@.x * v@.x >= 0) by (nonlinear_arith)
            requires
                abs_s(v@.x) <= m,
                m == 100_000_000_000_000_000,
        ;
        assert(v@.y * v@.y <= m * m && v@.y * v@.y >= 0) by (nonlinear_arith)
            requires
                abs_s(v@.y) <= m,
                m == 100_000_000_000_000_000,
        ;
        assert(v@.z * v@.z <= m * m && v@.z * v@.z >= 0) by (nonlinear_arith)
            requires
                abs_s(v@.z) <= m,
                m == 100_000_000_000_000_000,
        ;
    }
    let px: i128 = (v.x as i128) * (v.x as i128);
    let py: i128 = (v.y as i128) * (v.y as i128);
    let pz: i128 = (v.z as i128) * (v.z as i128);
    let q = crate::fixed::tdiv128(px + py + pz, SCALE as i128);
    proof {
        lemma_tdiv_abs((px + py + pz) as int, SCALE as int);
    }
    q
}

/// An output pixel: one quantized byte per channel.
#[derive(Clone, Copy, PartialEq, Eq, Structural, Debug)]
pub struct Rgb {
    pub r: u8,
    pub g: u8,
    pub b: u8,
}

/// One linear channel quantized for output: gamma transfer, clamp into
/// `[0, 0.999]`, then scale to the byte range.
pub open spec fn channel_byte_s(c: int) -> int {
    let g = gamma_s(c);
    let cl = clamp_s((Interval { min: 0i64, max: 9990i64 }), g);
    tdiv_s(256 * cl, SCALE as int)
}

/// Quantize an accumulated pixel color: scale each channel by the
/// per-sample weight, gamma-correct, clamp and map to bytes.
pub fn color_rgb(pixel_color: Color, pixel_samples_scale: i64) -> (rgb: Rgb)
    requires
        0 <= pixel_samples_scale <= SCALE,
        cbound(pixel_color@, 1_000_000_000_000_000),
    ensures
        rgb.r == channel_byte_s(fx_mul_s(pixel_samples_scale as int, pixel_color@.x)),
        rgb.g == channel_byte_s(fx_mul_s(pixel_samples_scale as int, pixel_color@.y)),
        rgb.b == channel_byte_s(fx_mul_s(pixel_samples_scale as int, pixel_color@.z)),
    {
    proof {
        lemma_fxmul_bound(
            pixel_samples_scale as int,
            pixel_color@.x,
            SCALE as int,
            1_000_000_000_000_000int,
        );
        lemma_fxmul_bound(
            pixel_samples_scale as int,
            pixel_color@.y,
            SCALE as int,
            1_000_000_000_000_000int,
        );
        lemma_fxmul_bound(
            pixel_samples_scale as int,
            pixel_color@.z,
            SCALE as int,
            1_000_000_000_000_000int,
        );
    }
    let intensity = Interval::new_use(0, 9990);
    let rb = channel_byte(fx_mul(pixel_samples_scale, pixel_color.x), &intensity);
    let gb = channel_byte(fx_mul(pixel_samples_scale, pixel_color.y), &intensity);
    let bb = channel_byte(fx_mul(pixel_samples_scale, pixel_color.z), &intensity);
    Rgb { r: rb, g: gb, b: bb }
}

fn channel_byte(c: i64, intensity: &Interval) -> (b: u8)
    requires
        intensity.min == 0,
        intensity.max == 9990,
    ensures
        b == channel_byte_s(c as int),
{
    let g = linear_to_gamma(c);
    let cl = intensity.clamp(g);
    proof {
        lemma_tdiv_monotone(0, 256 * (cl as int), SCALE as int);
        lemma_tdiv_monotone(256 * (cl as int), 2_557_440, SCALE as int);
        lemma_tdiv_abs(2_557_440, SCALE as int);
        lemma_tdiv_abs(0, SCALE as int);
    }
    let byte = tdiv64(256 * cl, SCALE);
    byte as u8
}

} // verus!
