//! Shared constants and utilities: the distance horizon, angle conversion,
//! a grid tangent, and the uniform random draws that sampling needs.

use crate::fixed::{
    abs_s, fx_div, fx_div_s, fx_mul, fx_mul_s, lemma_fxmul_bound, lemma_tdiv_bound, tdiv64,
    tdiv_s, SCALE,
};
use rand::Rng;
use vstd::prelude::*;

verus! {

/// Stands in for an unbounded hit-distance window: far beyond any distance
/// at which in-bounds geometry can be hit.
pub const INFINITY: i64 = 50_000_000_000;

/// The circle constant on the grid.
pub const PI: i64 = 31_416;

/// Largest slope the grid tangent reports; fields of view stay well below
/// the angles where this cap binds.
pub const TAN_CAP: i64 = 1_000_000;

pub open spec fn deg2rad_s(degrees: int) -> int {
    fx_div_s(fx_mul_s(degrees, PI as int), 1_800_000)
}

pub fn degrees_to_radians(degrees: i64) -> (r: i64)
    requires
        abs_s(degrees as int) <= 3_600_000,
    ensures
        r == deg2rad_s(degrees as int),
{
    proof {
        lemma_fxmul_bound(degrees as int, PI as int, 3_600_000int, 31_416int);
        lemma_tdiv_bound(
            fx_mul_s(degrees as int, PI as int) * (SCALE as int),
            1_800_000int,
            113_097_600_000_000int,
        );
    }
    fx_div(fx_mul(degrees, PI), 1_800_000)
}

/// Odd Taylor polynomial for the sine, degree seven, over grid values.
pub open spec fn sin_poly_s(x: int) -> int {
    let x2 = fx_mul_s(x, x);
    let x3 = fx_mul_s(x2, x);
    let x5 = fx_mul_s(x3, x2);
    let x7 = fx_mul_s(x5, x2);
    x - tdiv_s(x3, 6) + tdiv_s(x5, 120) - tdiv_s(x7, 5040)
}

/// Even Taylor polynomial for the cosine, degree six, over grid values.
pub open spec fn cos_poly_s(x: int) -> int {
    let x2 = fx_mul_s(x, x);
    let x4 = fx_mul_s(x2, x2);
    let x6 = fx_mul_s(x4, x2);
    (SCALE as int) - tdiv_s(x2, 2) + tdiv_s(x4, 24) - tdiv_s(x6, 720)
}

/// The grid tangent: the quotient of the two polynomials, capped, and zero
/// where the cosine polynomial has no positive grid value left.
pub open spec fn tan_fx_s(x: int) -> int {
    let s = sin_poly_s(x);
    let c = cos_poly_s(x);
    if c >= 1 {
        let t = fx_div_s(s, c);
        if t > TAN_CAP {
            TAN_CAP as int
        } else if t < -(TAN_CAP as int) {
            -(TAN_CAP as int)
        } else {
            t
        }
    } else {
        0
    }
}

/// Tangent of an angle given in grid radians, for the first quadrant.
pub fn tan_fx(x: i64) -> (r: i64)
    requires
        0 <= x <= 16_000,
    ensures
        r == tan_fx_s(x as int),
        abs_s(r as int) <= TAN_CAP,
{
    proof {
        lemma_fxmul_bound(x as int, x as int, 16_000int, 16_000int);
    }
    let x2 = fx_mul(x, x);
    proof {
        lemma_fxmul_bound(x2 as int, x as int, 25_600int, 16_000int);
        lemma_fxmul_bound(x2 as int, x2 as int, 25_600int, 25_600int);
    }
    let x3 = fx_mul(x2, x);
    let x4 = fx_mul(x2, x2);
    proof {
        lemma_fxmul_bound(x3 as int, x2 as int, 40_960int, 25_600int);
        lemma_fxmul_bound(x4 as int, x2 as int, 65_536int, 25_600int);
    }
    let x5 = fx_mul(x3, x2);
    let x6 = fx_mul(x4, x2);
    proof {
        lemma_fxmul_bound(x5 as int, x2 as int, 104_858int, 25_600int);
        lemma_tdiv_bound(x3 as int, 6, 40_960int);
        lemma_tdiv_bound(x5 as int, 120, 104_858int);
        lemma_tdiv_bound(x2 as int, 2, 25_600int);
        lemma_tdiv_bound(x4 as int, 24, 65_536int);
        lemma_tdiv_bound(x6 as int, 720, 167_773int);
    }
    let x7 = fx_mul(x5, x2);
    let s = x - tdiv64(x3, 6) + tdiv64(x5, 120) - tdiv64(x7, 5040);
    let c = SCALE - tdiv64(x2, 2) + tdiv64(x4, 24) - tdiv64(x6, 720);
    proof {
        lemma_tdiv_bound(x7 as int, 5040, 268_436int);
    }
    if c >= 1 {
        proof {
            lemma_tdiv_bound((s as int) * (SCALE as int), c as int, 4_000_000_000int);
        }
        let t = fx_div(s, c);
        if t > TAN_CAP {
            TAN_CAP
        } else if t < -TAN_CAP {
            -TAN_CAP
        } else {
            t
        }
    } else {
        0
    }
}

/// Relies on `rand::thread_rng` and `rand::Rng::gen_range`: a uniform draw
/// from the half-open integer range `[0, n)`. The range is nonempty, so the
/// call cannot panic, and the result lies below `n`.
#[verifier::external_body]
fn rand_below(n: u64) -> (r: u64)
    requires
        1 <= n,
    ensures
        r < n,
{
    rand::thread_rng().gen_range(0..n)
}

/// A uniform grid value in `[0, 1)`.
pub fn random_double() -> (r: i64)
    ensures
        0 <= r < SCALE,
{
    let d = rand_below(SCALE as u64);
    d as i64
}

/// A uniform grid value in `[min, max)`.
pub fn random_double_2(min: i64, max: i64) -> (r: i64)
    requires
        min < max,
    ensures
        min <= r < max,
{
    let span: i128 = (max as i128) - (min as i128);
    let d = rand_below(span as u64);
    let r: i128 = (min as i128) + (d as i128);
    r as i64
}

} // verus!
