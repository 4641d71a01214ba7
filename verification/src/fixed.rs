//! Scaled-integer arithmetic.
//!
//! Every coordinate, color channel and angle in this crate is a real number
//! represented exactly as an `i64` count of grid steps of size `1/SCALE`.
//! The operations below round toward zero, and each executable function is
//! proved equal to its spec-level counterpart, so every contract built on
//! them states the computed value exactly.

use vstd::arithmetic::div_mod::{
    lemma_div_by_multiple, lemma_div_is_ordered, lemma_div_is_ordered_by_denominator,
    lemma_div_pos_is_pos,
};
use vstd::prelude::*;

verus! {

/// Number of grid steps that represent the real value one.
pub const SCALE: i64 = 10000;

/// Magnitude of an integer.
pub open spec fn abs_s(n: int) -> int {
    if n < 0 {
        -n
    } else {
        n
    }
}

/// Division rounding toward zero, the rounding used by all executable
/// arithmetic in this crate.
pub open spec fn tdiv_s(n: int, d: int) -> int
    recommends
        d != 0,
{
    if (n < 0) != (d < 0) {
        -(abs_s(n) / abs_s(d))
    } else {
        abs_s(n) / abs_s(d)
    }
}

/// Product of two grid values, as a grid value.
pub open spec fn fx_mul_s(a: int, b: int) -> int {
    tdiv_s(a * b, SCALE as int)
}

/// Quotient of two grid values, as a grid value.
pub open spec fn fx_div_s(a: int, b: int) -> int
    recommends
        b != 0,
{
    tdiv_s(a * SCALE, b)
}

/// `r` is the integer square root of `n`.
pub open spec fn is_isqrt(n: int, r: int) -> bool {
    0 <= r && r * r <= n && n < (r + 1) * (r + 1)
}

/// The integer square root (floor of the real square root).
pub open spec fn isqrt_s(n: int) -> int {
    choose|r: int| is_isqrt(n, r)
}

/// Square root of a grid value, as a grid value: since `a` raw steps stand
/// for `a/SCALE`, its root is `sqrt(a * SCALE)` raw steps.
pub open spec fn fx_sqrt_s(a: int) -> int {
    isqrt_s(a * SCALE)
}

pub proof fn lemma_isqrt_exists(n: int)
    requires
        n >= 0,
    ensures
        exists|r: int| is_isqrt(n, r),
    decreases n,
{
    if n == 0 {
        assert(is_isqrt(0, 0));
    } else {
        let m: int = n - 1;
        lemma_isqrt_exists(m);
        let r = choose|r: int| is_isqrt(m, r);
        if n < (r + 1) * (r + 1) {
            assert(is_isqrt(n, r));
        } else {
            assert((r + 1) * (r + 1) <= n);
            assert(n - 1 < (r + 1) * (r + 1));
            assert(n == (r + 1) * (r + 1));
            assert(n < (r + 2) * (r + 2)) by (nonlinear_arith)
                requires
                    n == (r + 1) * (r + 1),
                    r >= 0,
            ;
            assert(is_isqrt(n, r + 1));
        }
    }
}

pub proof fn lemma_isqrt_unique(n: int, r1: int, r2: int)
    requires
        is_isqrt(n, r1),
        is_isqrt(n, r2),
    ensures
        r1 == r2,
{
    if r1 < r2 {
        assert((r1 + 1) * (r1 + 1) <= r2 * r2) by (nonlinear_arith)
            requires
                0 <= r1,
                r1 + 1 <= r2,
        ;
    }
    if r2 < r1 {
        assert((r2 + 1) * (r2 + 1) <= r1 * r1) by (nonlinear_arith)
            requires
                0 <= r2,
                r2 + 1 <= r1,
        ;
    }
}

/// A witness of `is_isqrt` is the value of `isqrt_s`.
pub proof fn lemma_isqrt_is(n: int, r: int)
    requires
        is_isqrt(n, r),
    ensures
        isqrt_s(n) == r,
{
    lemma_isqrt_exists(n);
    let w = choose|w: int| is_isqrt(n, w);
    lemma_isqrt_unique(n, w, r);
}

/// Dividing by at least one cannot grow a magnitude, and the result's
/// magnitude is the magnitude quotient.
pub proof fn lemma_tdiv_abs(n: int, d: int)
    requires
        d >= 1,
    ensures
        abs_s(tdiv_s(n, d)) == abs_s(n) / d,
        abs_s(tdiv_s(n, d)) <= abs_s(n),
        n >= 0 ==> tdiv_s(n, d) == n / d,
{
    lemma_div_pos_is_pos(abs_s(n), d);
    lemma_div_is_ordered_by_denominator(abs_s(n), 1, d);
}

/// A magnitude bound on the numerator gives a magnitude bound on the
/// truncated quotient.
pub proof fn lemma_tdiv_bound(n: int, d: int, m: int)
    requires
        d >= 1,
        abs_s(n) <= m,
    ensures
        abs_s(tdiv_s(n, d)) <= m / d,
        abs_s(tdiv_s(n, d)) <= m,
{
    lemma_tdiv_abs(n, d);
    lemma_div_is_ordered(abs_s(n), m, d);
    lemma_div_pos_is_pos(m, d);
    lemma_div_is_ordered_by_denominator(m, 1, d);
}

/// Truncating division is monotone in the numerator.
pub proof fn lemma_tdiv_monotone(n1: int, n2: int, d: int)
    requires
        d >= 1,
        n1 <= n2,
    ensures
        tdiv_s(n1, d) <= tdiv_s(n2, d),
{
    lemma_div_pos_is_pos(abs_s(n1), d);
    lemma_div_pos_is_pos(abs_s(n2), d);
    if n1 >= 0 {
        lemma_div_is_ordered(n1, n2, d);
    } else if n2 < 0 {
        lemma_div_is_ordered(-n2, -n1, d);
    }
}

/// Negating the numerator negates the truncated quotient.
pub proof fn lemma_tdiv_neg(n: int, d: int)
    requires
        d >= 1,
    ensures
        tdiv_s(-n, d) == -tdiv_s(n, d),
{
}

fn mag128(n: i128) -> (r: u128)
    requires
        n > i128::MIN,
    ensures
        r == abs_s(n as int),
{
    if n < 0 {
        (-n) as u128
    } else {
        n as u128
    }
}

/// Truncating division on wide integers.
pub(crate) fn tdiv128(n: i128, d: i128) -> (q: i128)
    requires
        d != 0,
        n > i128::MIN,
        d > i128::MIN,
    ensures
        q == tdiv_s(n as int, d as int),
{
    let nn = mag128(n);
    let dd = mag128(d);
    let qq = nn / dd;
    proof {
        lemma_tdiv_abs(n as int, abs_s(d as int));
        assert(qq <= nn);
    }
    if (n < 0) != (d < 0) {
        -(qq as i128)
    } else {
        qq as i128
    }
}

/// Product of two grid values.
pub fn fx_mul(a: i64, b: i64) -> (r: i64)
    requires
        abs_s(fx_mul_s(a as int, b as int)) <= i64::MAX,
    ensures
        r == fx_mul_s(a as int, b as int),
{
    proof {
        assert(abs_s(a as int) * abs_s(b as int) < 0x8000_0000_0000_0000_0000_0000_0000_0000int)
            by (nonlinear_arith)
            requires
                abs_s(a as int) <= 0x8000_0000_0000_0000u64,
                abs_s(b as int) <= 0x8000_0000_0000_0000u64,
        ;
        assert(abs_s((a as int) * (b as int)) == abs_s(a as int) * abs_s(b as int))
            by (nonlinear_arith);
    }
    let p: i128 = (a as i128) * (b as i128);
    let q = tdiv128(p, SCALE as i128);
    q as i64
}

/// Quotient of two grid values.
pub fn fx_div(a: i64, b: i64) -> (r: i64)
    requires
        b != 0,
        abs_s(fx_div_s(a as int, b as int)) <= i64::MAX,
    ensures
        r == fx_div_s(a as int, b as int),
{
    let p: i128 = (a as i128) * (SCALE as i128);
    let q = tdiv128(p, b as i128);
    q as i64
}

/// Integer square root by binary search.
pub(crate) fn isqrt128(n: u128) -> (r: u128)
    ensures
        is_isqrt(n as int, r as int),
        r <= 0xFFFF_FFFF_FFFF_FFFFu128,
{
    let mut lo: u128 = 0;
    let mut hi: u128 = 0xFFFF_FFFF_FFFF_FFFF;
    proof {
        assert((hi as int + 1) * (hi as int + 1) > u128::MAX) by (nonlinear_arith)
            requires
                hi == 0xFFFF_FFFF_FFFF_FFFFu128,
        ;
    }
    while lo < hi
        invariant
            lo <= hi,
            hi <= 0xFFFF_FFFF_FFFF_FFFFu128,
            (lo as int) * (lo as int) <= n,
            n < (hi as int + 1) * (hi as int + 1),
        decreases hi - lo,
    {
        let mid = lo + (hi - lo + 1) / 2;
        proof {
            assert(lo < mid <= hi);
            assert((mid as int) * (mid as int) < 0x1_0000_0000_0000_0000_0000_0000_0000_0000int)
                by (nonlinear_arith)
                requires
                    mid <= 0xFFFF_FFFF_FFFF_FFFFu128,
            ;
        }
        if mid * mid <= n {
            lo = mid;
        } else {
            hi = mid - 1;
        }
    }
    lo
}

/// Square root of a nonnegative grid value.
pub fn fx_sqrt(a: i64) -> (r: i64)
    requires
        a >= 0,
    ensures
        r == fx_sqrt_s(a as int),
        is_isqrt(a * SCALE, r as int),
        r >= 0,
{
    proof {
        assert((a as int) * (SCALE as int) <= 92233720368547758070000int) by (nonlinear_arith)
            requires
                0 <= a <= i64::MAX,
                SCALE == 10000,
        ;
    }
    let m: u128 = (a as u128) * (SCALE as u128);
    let q = isqrt128(m);
    proof {
        assert(q < 0x1_0000_0000_0000u128) by (nonlinear_arith)
            requires
                (q as int) * (q as int) <= m,
                m <= 92233720368547758070000int,
        ;
        lemma_isqrt_is(m as int, q as int);
    }
    q as i64
}

/// The magnitude of a grid product of bounded factors.
pub proof fn lemma_fxmul_bound(a: int, b: int, ma: int, mb: int)
    requires
        abs_s(a) <= ma,
        abs_s(b) <= mb,
        0 <= ma,
        0 <= mb,
    ensures
        abs_s(fx_mul_s(a, b)) <= (ma * mb) / (SCALE as int),
        abs_s(fx_mul_s(a, b)) <= ma * mb,
{
    assert(abs_s(a * b) <= ma * mb) by (nonlinear_arith)
        requires
            abs_s(a) <= ma,
            abs_s(b) <= mb,
            0 <= ma,
            0 <= mb,
    ;
    lemma_tdiv_bound(a * b, SCALE as int, ma * mb);
}


/// Truncating division on machine words.
pub(crate) fn tdiv64(n: i64, d: i64) -> (q: i64)
    requires
        d >= 1,
    ensures
        q == tdiv_s(n as int, d as int),
{
    proof {
        lemma_tdiv_bound(n as int, d as int, 0x8000_0000_0000_0000int);
    }
    let q = tdiv128(n as i128, d as i128);
    q as i64
}


/// Multiplying by the grid unit is the identity.
pub proof fn lemma_fx_identity(x: int)
    ensures
        fx_mul_s(x, SCALE as int) == x,
        fx_mul_s(SCALE as int, x) == x,
{
    let s: int = SCALE as int;
    assert(abs_s(x * s) == abs_s(x) * s) by (nonlinear_arith)
        requires
            s > 0,
    ;
    lemma_div_by_multiple(abs_s(x), s);
    assert(x * s == s * x) by (nonlinear_arith);
}

/// Grid products with a fixed nonnegative factor are monotone.
pub proof fn lemma_fxmul_monotone(k: int, x1: int, x2: int)
    requires
        0 <= k,
        x1 <= x2,
    ensures
        fx_mul_s(k, x1) <= fx_mul_s(k, x2),
{
    assert(k * x1 <= k * x2) by (nonlinear_arith)
        requires
            0 <= k,
            x1 <= x2,
    ;
    lemma_tdiv_monotone(k * x1, k * x2, SCALE as int);
}

} // verus!
