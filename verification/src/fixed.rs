//! Signed 64-bit fixed-point scalars.
//!
//! A scalar carries 16 fractional bits: the integer `FP_ONE` stands for the
//! real number 1. Multiplication and division round toward zero, exactly as
//! Rust's integer `/` does, and every operation's contract states the exact
//! rounded result.

use vstd::prelude::*;

verus! {

/// The fixed-point unit: this value stands for the real number 1.
pub const FP_ONE: i64 = 65536;

/// Largest magnitude admitted for a scene coordinate (2^38 units).
/// Keeping coordinates under this bound keeps every product of two
/// scalars, and every sum of a few such products, inside `i128`.
pub const COORD_LIMIT: i64 = 0x40_0000_0000;

/// Magnitude of an integer.
pub open spec fn spec_abs(a: int) -> int {
    if a >= 0 {
        a
    } else {
        -a
    }
}

/// Division rounding toward zero, the rounding Rust's `/` performs.
/// Only used with a positive divisor.
pub open spec fn trunc_div(a: int, b: int) -> int
    recommends
        b > 0,
{
    if a >= 0 {
        a / b
    } else {
        -((-a) / b)
    }
}

/// Fixed-point product: the real product, rounded toward zero.
pub open spec fn spec_fp_mul(a: int, b: int) -> int {
    trunc_div(a * b, FP_ONE as int)
}

/// Fixed-point quotient: the real quotient, rounded toward zero.
pub open spec fn spec_fp_div(a: int, b: int) -> int
    recommends
        b > 0,
{
    trunc_div(a * (FP_ONE as int), b)
}

/// The divisor times the truncated quotient never overshoots the dividend,
/// and overshoots by less than the divisor when pushed one step further.
pub proof fn lemma_trunc_div_bounds(a: int, b: int)
    requires
        b > 0,
    ensures
        b * spec_abs(trunc_div(a, b)) <= spec_abs(a),
        spec_abs(a) < b * (spec_abs(trunc_div(a, b)) + 1),
        spec_abs(trunc_div(a, b)) <= spec_abs(a),
        a >= 0 ==> trunc_div(a, b) >= 0,
        a <= 0 ==> trunc_div(a, b) <= 0,
{
    let m = spec_abs(a);
    let q = m / b;
    let r = m % b;
    vstd::arithmetic::div_mod::lemma_fundamental_div_mod(m, b);
    vstd::arithmetic::div_mod::lemma_mod_bound(m, b);
    vstd::arithmetic::div_mod::lemma_div_pos_is_pos(m, b);
    assert(m == b * q + r);
    assert(b * q <= m < b * (q + 1)) by (nonlinear_arith)
        requires
            m == b * q + r,
            0 <= r < b,
    ;
    assert(q <= b * q) by (nonlinear_arith)
        requires
            b >= 1,
            q >= 0,
    ;
}

/// Truncated division of a magnitude agrees with Euclidean division.
pub proof fn lemma_trunc_div_nonneg(a: int, b: int)
    requires
        a >= 0,
        b > 0,
    ensures
        trunc_div(a, b) == a / b,
{
}

fn abs_u128(a: i128) -> (r: u128)
    requires
        a > i128::MIN,
    ensures
        r as int == spec_abs(a as int),
{
    if a >= 0 {
        a as u128
    } else {
        (-a) as u128
    }
}

/// Truncated signed division on wide intermediates.
pub fn trunc_div_i128(a: i128, b: i128) -> (q: i128)
    requires
        b > 0,
        a > i128::MIN,
    ensures
        q as int == trunc_div(a as int, b as int),
{
    let ma: u128 = abs_u128(a);
    let mb: u128 = b as u128;
    let mq: u128 = ma / mb;
    proof {
        vstd::arithmetic::div_mod::lemma_div_nonincreasing(ma as int, mb as int);
    }
    if a >= 0 {
        mq as i128
    } else {
        -(mq as i128)
    }
}

/// The integer square root: the largest `r` with `r * r <= n`.
pub open spec fn spec_isqrt(n: int) -> int
    decreases n,
{
    if n <= 0 {
        0
    } else {
        let r = spec_isqrt(n - 1);
        if (r + 1) * (r + 1) <= n {
            r + 1
        } else {
            r
        }
    }
}

/// The integer square root squared brackets its argument.
pub proof fn lemma_isqrt_bounds(n: int)
    requires
        n >= 0,
    ensures
        spec_isqrt(n) >= 0,
        spec_isqrt(n) * spec_isqrt(n) <= n,
        n < (spec_isqrt(n) + 1) * (spec_isqrt(n) + 1),
    decreases n,
{
    if n == 0 {
    } else {
        lemma_isqrt_bounds(n - 1);
        let r = spec_isqrt(n - 1);
        if (r + 1) * (r + 1) <= n {
            assert((r + 2) * (r + 2) > n) by (nonlinear_arith)
                requires
                    n - 1 < (r + 1) * (r + 1),
                    r >= 0,
            ;
        }
    }
}

/// Any value whose square brackets `n` is the integer square root of `n`.
pub proof fn lemma_isqrt_unique(n: int, r: int)
    requires
        n >= 0,
        r >= 0,
        r * r <= n,
        n < (r + 1) * (r + 1),
    ensures
        r == spec_isqrt(n),
{
    lemma_isqrt_bounds(n);
    let s = spec_isqrt(n);
    assert(r < s ==> (r + 1) * (r + 1) <= s * s) by (nonlinear_arith)
        requires
            r >= 0,
            s >= 0,
    ;
    assert(s < r ==> (s + 1) * (s + 1) <= r * r) by (nonlinear_arith)
        requires
            r >= 0,
            s >= 0,
    ;
}

/// The integer square root, by bisection.
pub fn isqrt_u128(n: u128) -> (r: u128)
    requires
        n < 0x4000_0000_0000_0000_0000_0000_0000_0000u128,
    ensures
        r as int == spec_isqrt(n as int),
        r * r <= n,
        r < 0x8000_0000_0000_0000u128,
{
    let mut lo: u128 = 0;
    let mut hi: u128 = 0x8000_0000_0000_0000;
    proof {
        assert((0x8000_0000_0000_0000u128 as int) * (0x8000_0000_0000_0000u128 as int)
            == 0x4000_0000_0000_0000_0000_0000_0000_0000) by (nonlinear_arith);
    }
    while lo + 1 < hi
        invariant
            lo < hi <= 0x8000_0000_0000_0000u128,
            (lo as int) * (lo as int) <= n as int,
            (n as int) < (hi as int) * (hi as int),
        decreases hi - lo,
    {
        let mid: u128 = lo + (hi - lo) / 2;
        proof {
            assert(mid < hi && (mid as int) * (mid as int) < 0x8000_0000_0000_0000_0000_0000_0000_0000)
                by (nonlinear_arith)
                requires
                    lo < mid < hi <= 0x8000_0000_0000_0000u128,
            {
            }
            assert(lo < mid) by {
                assert((hi - lo) / 2 >= 1);
            }
        }
        if mid * mid <= n {
            lo = mid;
        } else {
            hi = mid;
        }
    }
    proof {
        assert(hi == lo + 1);
        lemma_isqrt_unique(n as int, lo as int);
    }
    lo
}

/// Fixed-point multiplication, rounding toward zero.
pub fn fp_mul(a: i64, b: i64) -> (r: i64)
    requires
        spec_abs(a as int) * spec_abs(b as int) <= 0x7FFF_FFFF_FFFF_FFFF * (FP_ONE as int),
    ensures
        r as int == spec_fp_mul(a as int, b as int),
{
    proof {
        assert((a as int) * (b as int) <= spec_abs(a as int) * spec_abs(b as int)
            && -(spec_abs(a as int) * spec_abs(b as int)) <= (a as int) * (b as int))
            by (nonlinear_arith);
        lemma_trunc_div_bounds((a as int) * (b as int), FP_ONE as int);
    }
    let p: i128 = (a as i128) * (b as i128);
    let q: i128 = trunc_div_i128(p, FP_ONE as i128);
    q as i64
}

/// A fixed-point product of factors whose magnitude product is capped
/// stays under the cap.
pub proof fn lemma_fp_mul_bound(a: int, b: int, cap: int)
    requires
        cap >= 0,
        spec_abs(a) * spec_abs(b) <= cap * (FP_ONE as int),
    ensures
        spec_abs(spec_fp_mul(a, b)) <= cap,
{
    assert(spec_abs(a * b) == spec_abs(a) * spec_abs(b)) by (nonlinear_arith);
    lemma_trunc_div_bounds(a * b, FP_ONE as int);
    let q = spec_abs(spec_fp_mul(a, b));
    assert((FP_ONE as int) * q <= cap * (FP_ONE as int) ==> q <= cap) by (nonlinear_arith);
}

/// Fixed-point division by a positive scalar, rounding toward zero.
pub fn fp_div(a: i64, b: i64) -> (r: i64)
    requires
        b > 0,
        i64::MIN as int <= spec_fp_div(a as int, b as int) <= i64::MAX as int,
    ensures
        r as int == spec_fp_div(a as int, b as int),
{
    proof {
        lemma_trunc_div_bounds((a as int) * (FP_ONE as int), b as int);
        assert(spec_abs((a as int) * (FP_ONE as int)) == spec_abs(a as int) * (FP_ONE as int))
            by (nonlinear_arith);
    }
    let p: i128 = (a as i128) * (FP_ONE as i128);
    let q: i128 = trunc_div_i128(p, b as i128);
    q as i64
}

} // verus!
