//! Fixed-point arithmetic shared by the whole pipeline.
//!
//! Heights, magnitudes and gains are carried as integers counted in
//! millionths (`UNIT` stands for 1.0); weights and curves are counted in
//! thousandths. Signed quotients round toward zero, so a quantity and its
//! negation always round to opposite values.

use vstd::prelude::*;

verus! {

/// The integer that stands for 1.0 in heights, magnitudes and tilt factors.
pub const UNIT: u64 = 1_000_000;

/// Quotient of `a` by a positive `b`, rounded toward zero.
pub open spec fn trunc_div(a: int, b: int) -> int
    recommends
        b > 0,
{
    if a >= 0 {
        a / b
    } else {
        -((-a) / b)
    }
}

/// `v` limited to the closed interval `[lo, hi]`.
pub open spec fn clamp_int(v: int, lo: int, hi: int) -> int
    recommends
        lo <= hi,
{
    if v < lo {
        lo
    } else if v > hi {
        hi
    } else {
        v
    }
}

/// The smaller of two integers.
pub open spec fn min_int(a: int, b: int) -> int {
    if a <= b {
        a
    } else {
        b
    }
}

/// The larger of two integers.
pub open spec fn max_int(a: int, b: int) -> int {
    if a >= b {
        a
    } else {
        b
    }
}

/// The absolute value of an integer.
pub open spec fn abs_int(a: int) -> int {
    if a >= 0 {
        a
    } else {
        -a
    }
}

/// The integer square root: the largest `r` with `r * r <= n`.
pub open spec fn is_isqrt(n: int, r: int) -> bool {
    0 <= r && r * r <= n && n < (r + 1) * (r + 1)
}

/// The integer square root of `n`.
pub open spec fn int_sqrt(n: int) -> int {
    choose|r: int| is_isqrt(n, r)
}

/// A product of non-negative factors is bounded by the product of their
/// bounds.
pub proof fn lemma_mul_le(a: int, b: int, c: int, d: int)
    by (nonlinear_arith)
    requires
        0 <= a <= c,
        0 <= b <= d,
    ensures
        0 <= a * b <= c * d,
{
}

/// Division by a positive number is monotone and bounded by its dividend.
pub proof fn lemma_div_bounds(a: int, b: int, d: int)
    by (nonlinear_arith)
    requires
        0 <= a <= b,
        d > 0,
    ensures
        0 <= a / d <= b / d,
        a / d <= a,
        (a / d) * d <= a,
        a < (a / d + 1) * d,
{
}

/// A quotient stays below a bound when the dividend stays below its multiple.
pub proof fn lemma_div_le_bound(a: int, d: int, m: int)
    by (nonlinear_arith)
    requires
        0 <= a <= m * d,
        d > 0,
    ensures
        a / d <= m,
{
}

/// The integer square root is unique.
pub proof fn lemma_isqrt_unique(n: int, r1: int, r2: int)
    by (nonlinear_arith)
    requires
        is_isqrt(n, r1),
        is_isqrt(n, r2),
    ensures
        r1 == r2,
{
}

/// A product of two factors is bounded by the product of their bounds,
/// whatever their signs.
pub proof fn lemma_mul_abs_le(a: int, b: int, c: int, d: int)
    by (nonlinear_arith)
    requires
        -c <= a <= c,
        -d <= b <= d,
    ensures
        -(c * d) <= a * b <= c * d,
{
}

/// Exact product of two `u64` values.
pub fn mul_wide(a: u64, b: u64) -> (p: u128)
    ensures
        p == a * b,
{
    proof {
        lemma_mul_le(a as int, b as int, u64::MAX as int, u64::MAX as int);
    }
    (a as u128) * (b as u128)
}

/// Quotient of a signed number by a positive one, rounded toward zero.
pub fn div_toward_zero(a: i128, b: i128) -> (q: i128)
    requires
        b > 0,
        a > i128::MIN,
    ensures
        q == trunc_div(a as int, b as int),
        abs_int(q as int) <= abs_int(a as int),
{
    proof {
        lemma_div_bounds(abs_int(a as int), abs_int(a as int), b as int);
    }
    a / b
}

/// `v` limited to `[-limit, limit]`.
pub fn clamp_symmetric(v: i128, limit: i64) -> (r: i64)
    requires
        limit >= 0,
    ensures
        r == clamp_int(v as int, -(limit as int), limit as int),
{
    if v < -(limit as i128) {
        -limit
    } else if v > limit as i128 {
        limit
    } else {
        v as i64
    }
}

/// The integer square root of `n`, found by bisection.
pub fn isqrt(n: u128) -> (r: u64)
    ensures
        is_isqrt(n as int, r as int),
        r == int_sqrt(n as int),
{
    let mut lo: u64 = 0;
    let mut hi: u64 = u64::MAX;
    proof {
        assert((u64::MAX as int + 1) * (u64::MAX as int + 1) > u128::MAX as int)
            by (nonlinear_arith);
    }
    while lo < hi
        invariant
            lo <= hi,
            (lo as int) * (lo as int) <= n,
            n < (hi as int + 1) * (hi as int + 1),
        decreases hi - lo,
    {
        let mid: u64 = lo + (hi - lo) / 2 + (hi - lo) % 2;
        assert(lo < mid <= hi);
        let sq: u128 = mul_wide(mid, mid);
        if sq <= n {
            lo = mid;
        } else {
            hi = mid - 1;
        }
    }
    proof {
        assert(is_isqrt(n as int, lo as int));
        lemma_isqrt_unique(n as int, lo as int, int_sqrt(n as int));
    }
    lo
}

} // verus!
