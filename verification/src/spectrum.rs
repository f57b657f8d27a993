//! Levels read from a magnitude spectrum: the largest and the summed
//! magnitude of a run of bins, and the blend of the two that stands for a
//! whole band. Magnitudes are counted in millionths.

use vstd::prelude::*;
use crate::fixed::{lemma_div_le_bound, lemma_mul_le};

verus! {

/// The largest magnitude among the bins `lo..hi`, and 0 for an empty run.
pub open spec fn range_max(s: Seq<u64>, lo: int, hi: int) -> int
    decreases hi - lo,
{
    if lo >= hi {
        0
    } else {
        let m = range_max(s, lo, hi - 1);
        if s[hi - 1] > m {
            s[hi - 1] as int
        } else {
            m
        }
    }
}

/// The sum of the magnitudes of the bins `lo..hi`.
pub open spec fn range_sum(s: Seq<u64>, lo: int, hi: int) -> int
    decreases hi - lo,
{
    if lo >= hi {
        0
    } else {
        range_sum(s, lo, hi - 1) + s[hi - 1]
    }
}

/// The magnitude of the band `lo..hi`: four tenths of its largest bin and
/// six tenths of the mean of its bins.
pub open spec fn band_magnitude(s: Seq<u64>, lo: int, hi: int) -> int {
    let n = hi - lo;
    (4 * range_max(s, lo, hi) * n + 6 * range_sum(s, lo, hi)) / (10 * n)
}

/// The largest magnitude bounds every bin of the run and is one of them.
pub proof fn lemma_range_max(s: Seq<u64>, lo: int, hi: int)
    requires
        0 <= lo <= hi <= s.len(),
    ensures
        0 <= range_max(s, lo, hi) <= u64::MAX,
        forall|k: int| lo <= k < hi ==> #[trigger] s[k] <= range_max(s, lo, hi),
        lo < hi ==> exists|k: int| lo <= k < hi && #[trigger] s[k] == range_max(s, lo, hi),
        lo == hi ==> range_max(s, lo, hi) == 0,
    decreases hi - lo,
{
    if lo < hi {
        lemma_range_max(s, lo, hi - 1);
        if s[hi - 1] > range_max(s, lo, hi - 1) {
            assert(s[hi - 1] == range_max(s, lo, hi));
        } else if lo < hi - 1 {
            let k = choose|k: int| lo <= k < hi - 1 && #[trigger] s[k] == range_max(s, lo, hi - 1);
            assert(s[k] == range_max(s, lo, hi));
        } else {
            assert(s[hi - 1] == range_max(s, lo, hi));
        }
    }
}

/// The sum of a run is at most its length times its largest magnitude.
pub proof fn lemma_range_sum(s: Seq<u64>, lo: int, hi: int)
    requires
        0 <= lo <= hi <= s.len(),
    ensures
        0 <= range_sum(s, lo, hi) <= (hi - lo) * range_max(s, lo, hi),
        range_sum(s, lo, hi) <= (hi - lo) * u64::MAX,
    decreases hi - lo,
{
    if lo < hi {
        lemma_range_sum(s, lo, hi - 1);
        lemma_range_max(s, lo, hi - 1);
        lemma_range_max(s, lo, hi);
        let n = hi - 1 - lo;
        let m0 = range_max(s, lo, hi - 1);
        let m1 = range_max(s, lo, hi);
        assert(n * m0 <= n * m1) by {
            lemma_mul_le(n, m0, n, m1);
        }
        assert((n + 1) * m1 == n * m1 + m1) by (nonlinear_arith);
        assert((hi - lo) * m1 <= (hi - lo) * u64::MAX) by {
            lemma_mul_le(hi - lo, m1, hi - lo, u64::MAX as int);
        }
    } else {
        assert((hi - lo) * range_max(s, lo, hi) == 0) by (nonlinear_arith)
            requires
                hi - lo == 0,
        ;
    }
}

/// A run in which every bin is silent has no level at all.
pub proof fn lemma_silent_range(s: Seq<u64>, lo: int, hi: int)
    requires
        0 <= lo <= hi <= s.len(),
        forall|k: int| lo <= k < hi ==> #[trigger] s[k] == 0,
    ensures
        range_max(s, lo, hi) == 0,
        range_sum(s, lo, hi) == 0,
    decreases hi - lo,
{
    if lo < hi {
        lemma_silent_range(s, lo, hi - 1);
    }
}

/// The magnitude of a band lies between 0 and its largest bin.
pub proof fn lemma_band_magnitude(s: Seq<u64>, lo: int, hi: int)
    requires
        0 <= lo < hi <= s.len(),
    ensures
        0 <= band_magnitude(s, lo, hi) <= range_max(s, lo, hi) <= u64::MAX,
{
    lemma_range_max(s, lo, hi);
    lemma_range_sum(s, lo, hi);
    let n = hi - lo;
    let m = range_max(s, lo, hi);
    let t = range_sum(s, lo, hi);
    assert(0 <= m * n) by {
        lemma_mul_le(0, 0, m, n);
    }
    assert(n * m == m * n) by (nonlinear_arith);
    assert(4 * m * n + 6 * t <= m * (10 * n)) by (nonlinear_arith)
        requires
            t <= m * n,
    ;
    assert(4 * m * n == 4 * (m * n)) by (nonlinear_arith);
    lemma_div_le_bound(4 * m * n + 6 * t, 10 * n, m);
    assert((4 * m * n + 6 * t) / (10 * n) >= 0) by (nonlinear_arith)
        requires
            4 * m * n + 6 * t >= 0,
            10 * n > 0,
    ;
}

/// The largest magnitude among the bins `lo..hi` of `spectrum`.
pub fn max_in_range(spectrum: &Vec<u64>, lo: usize, hi: usize) -> (m: u64)
    requires
        lo <= hi <= spectrum@.len(),
    ensures
        m == range_max(spectrum@, lo as int, hi as int),
{
    let mut m: u64 = 0;
    let mut k: usize = lo;
    while k < hi
        invariant
            lo <= k <= hi <= spectrum@.len(),
            m == range_max(spectrum@, lo as int, k as int),
        decreases hi - k,
    {
        if spectrum[k] > m {
            m = spectrum[k];
        }
        k += 1;
    }
    m
}

/// The sum of the magnitudes of the bins `lo..hi` of `spectrum`.
pub fn sum_in_range(spectrum: &Vec<u64>, lo: usize, hi: usize) -> (t: u128)
    requires
        lo <= hi <= spectrum@.len(),
    ensures
        t == range_sum(spectrum@, lo as int, hi as int),
{
    let mut t: u128 = 0;
    let mut k: usize = lo;
    while k < hi
        invariant
            lo <= k <= hi <= spectrum@.len(),
            t == range_sum(spectrum@, lo as int, k as int),
            t <= (k - lo) * u64::MAX,
        decreases hi - k,
    {
        proof {
            lemma_range_sum(spectrum@, lo as int, k as int + 1);
            assert((k + 1 - lo) * u64::MAX == (k - lo) * u64::MAX + u64::MAX) by (nonlinear_arith);
            lemma_mul_le((k + 1 - lo) as int, u64::MAX as int, u64::MAX as int, u64::MAX as int);
        }
        t = t + spectrum[k] as u128;
        k += 1;
    }
    t
}

/// The magnitude of the band `lo..hi` of `spectrum`. The band holds at most
/// `u32::MAX` bins, so that the weighted sum fits in 128 bits.
pub fn magnitude_of_band(spectrum: &Vec<u64>, lo: usize, hi: usize) -> (mag: u64)
    requires
        lo < hi <= spectrum@.len(),
        hi - lo <= u32::MAX,
    ensures
        mag == band_magnitude(spectrum@, lo as int, hi as int),
        mag <= range_max(spectrum@, lo as int, hi as int),
{
    let m: u64 = max_in_range(spectrum, lo, hi);
    let t: u128 = sum_in_range(spectrum, lo, hi);
    let n: u128 = (hi - lo) as u128;
    proof {
        lemma_band_magnitude(spectrum@, lo as int, hi as int);
        lemma_range_sum(spectrum@, lo as int, hi as int);
        lemma_mul_le(m as int, n as int, u64::MAX as int, u32::MAX as int);
        lemma_mul_le(n as int, u64::MAX as int, u32::MAX as int, u64::MAX as int);
        assert(4 * m * n == 4 * (m * n)) by (nonlinear_arith);
    }
    let weighted: u128 = 4 * (m as u128) * n + 6 * t;
    (weighted / (10 * n)) as u64
}

} // verus!
