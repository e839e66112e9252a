//! Trailing-window mean of acceleration magnitude.
use vstd::prelude::*;

verus! {

/// Fewest samples of history for which the mean is defined.
pub const MIN_PERIODS: usize = 5;

/// Smallest window, in samples.
pub const MIN_WINDOW: usize = 10;

/// Sum of `s[lo..hi]`.
pub open spec fn sum_range(s: Seq<u64>, lo: int, hi: int) -> int
    decreases hi - lo,
{
    if hi <= lo {
        0
    } else {
        sum_range(s, lo, hi - 1) + s[hi - 1]
    }
}

/// Number of samples in the window that ends at index `i`.
pub open spec fn window_count(i: int, w: int) -> int {
    if i + 1 < w {
        i + 1
    } else {
        w
    }
}

/// The rolling mean at index `i`: undefined with fewer than `MIN_PERIODS`
/// samples of history, else the floor of the window's average.
pub open spec fn rolling_value(mags: Seq<u64>, w: int, i: int) -> Option<u64> {
    let c = window_count(i, w);
    if c < MIN_PERIODS {
        None
    } else {
        Some((sum_range(mags, i + 1 - c, i + 1) / c) as u64)
    }
}

/// Every defined value of a rolling series fits in 32 bits.
pub open spec fn rolling_bounded(r: Seq<Option<u64>>) -> bool {
    forall|i: int| 0 <= i < r.len() ==> match #[trigger] r[i] {
        Some(v) => v < 4_294_967_296,
        None => true,
    }
}

/// `round(a * n / span)` for a positive span; every sample when the span is empty.
pub open spec fn rounded_count(a: int, n: int, span: int) -> int {
    if span <= 0 {
        n
    } else {
        (2 * a * n + span) / (2 * span)
    }
}

/// Window length in samples for `window_us` microseconds over `n` samples that
/// span `span` microseconds, with a floor of `MIN_WINDOW`. A window longer than
/// the trace is cut to the trace, which leaves every mean unchanged.
pub open spec fn window_samples_spec(window_us: int, n: int, span: int) -> int {
    let w = rounded_count(window_us, n, span);
    if w < MIN_WINDOW {
        MIN_WINDOW as int
    } else if w > n {
        n
    } else {
        w
    }
}

proof fn lemma_sum_range_bound(s: Seq<u64>, lo: int, hi: int)
    requires
        0 <= lo <= hi <= s.len(),
        forall|k: int| 0 <= k < s.len() ==> s[k] < 4_294_967_296,
    ensures
        0 <= sum_range(s, lo, hi) <= (hi - lo) * 4_294_967_296,
    decreases hi - lo,
{
    if hi > lo {
        lemma_sum_range_bound(s, lo, hi - 1);
    }
}

proof fn lemma_sum_range_mean_bound(s: Seq<u64>, lo: int, hi: int)
    requires
        0 <= lo < hi <= s.len(),
        forall|k: int| 0 <= k < s.len() ==> s[k] < 4_294_967_296,
    ensures
        0 <= sum_range(s, lo, hi) / (hi - lo) < 4_294_967_296,
{
    lemma_sum_range_bound(s, lo, hi);
    let c = hi - lo;
    let t = sum_range(s, lo, hi);
    vstd::arithmetic::div_mod::lemma_div_pos_is_pos(t, c);
    vstd::arithmetic::div_mod::lemma_div_is_ordered(t, c * 4_294_967_296, c);
    vstd::arithmetic::mul::lemma_mul_is_commutative(c, 4_294_967_296);
    vstd::arithmetic::div_mod::lemma_div_multiples_vanish(4_294_967_296, c);
    assert(t < c * 4_294_967_296) by {
        lemma_sum_strict(s, lo, hi);
    }
    vstd::arithmetic::div_mod::lemma_div_is_ordered(t, c * 4_294_967_296 - 1, c);
    assert((c * 4_294_967_296 - 1) / c < 4_294_967_296) by {
        vstd::arithmetic::div_mod::lemma_fundamental_div_mod(c * 4_294_967_296 - 1, c);
        vstd::arithmetic::div_mod::lemma_mod_pos_bound(c * 4_294_967_296 - 1, c);
        assert(c * ((c * 4_294_967_296 - 1) / c) <= c * 4_294_967_296 - 1);
        if (c * 4_294_967_296 - 1) / c >= 4_294_967_296 {
            vstd::arithmetic::mul::lemma_mul_inequality(
                4_294_967_296,
                (c * 4_294_967_296 - 1) / c,
                c,
            );
            vstd::arithmetic::mul::lemma_mul_is_commutative(c, (c * 4_294_967_296 - 1) / c);
        }
    }
}

proof fn lemma_sum_strict(s: Seq<u64>, lo: int, hi: int)
    requires
        0 <= lo < hi <= s.len(),
        forall|k: int| 0 <= k < s.len() ==> s[k] < 4_294_967_296,
    ensures
        sum_range(s, lo, hi) < (hi - lo) * 4_294_967_296,
    decreases hi - lo,
{
    if hi - 1 > lo {
        lemma_sum_strict(s, lo, hi - 1);
    } else {
        assert(sum_range(s, lo, hi - 1) == 0);
    }
}

/// Window length in samples for a trailing window of `window_us` microseconds.
pub fn window_samples(window_us: i64, n: usize, span: i64) -> (r: usize)
    requires
        0 <= window_us <= crate::types::MAX_TIME,
        n <= crate::types::MAX_SAMPLES,
    ensures
        r == window_samples_spec(window_us as int, n as int, span as int),
        n > 0 ==> r >= 1,
{
    proof {
        assert(2 * (window_us as int) * (n as int) <= 2 * 100_000_000_000 * 10_000_000)
            by (nonlinear_arith)
            requires
                0 <= window_us <= 100_000_000_000int,
                0 <= n <= 10_000_000int,
        ;
        assert(0 <= 2 * (window_us as int) * (n as int)) by (nonlinear_arith)
            requires
                0 <= window_us,
                0 <= n,
        ;
        if span > 0 {
            let x = 2 * (window_us as int) * (n as int) + span;
            vstd::arithmetic::div_mod::lemma_div_pos_is_pos(x, 2 * (span as int));
            vstd::arithmetic::div_mod::lemma_div_is_ordered_by_denominator(x, 1, 2 * (span as int));
        }
    }
    let w: i128 = if span <= 0 {
        n as i128
    } else {
        (2 * (window_us as i128) * (n as i128) + (span as i128)) / (2 * (span as i128))
    };
    if w < MIN_WINDOW as i128 {
        MIN_WINDOW
    } else if w > n as i128 {
        n
    } else {
        w as usize
    }
}

/// Trailing mean over `window` samples of `mags`, one entry per index.
pub fn rolling_mean(mags: &Vec<u64>, window: usize) -> (r: Vec<Option<u64>>)
    requires
        window >= 1,
        forall|k: int| 0 <= k < mags@.len() ==> mags@[k] < 4_294_967_296,
    ensures
        r@.len() == mags@.len(),
        forall|i: int| 0 <= i < r@.len() ==> #[trigger] r@[i] == rolling_value(mags@, window as int, i),
        forall|i: int|
            0 <= i < r@.len() ==> (#[trigger] r@[i] is None <==> window_count(i, window as int)
                < MIN_PERIODS),
        rolling_bounded(r@),
{
    let n = mags.len();
    let mut out: Vec<Option<u64>> = Vec::new();
    let mut i: usize = 0;
    while i < n
        invariant
            i <= n,
            n == mags@.len(),
            window >= 1,
            forall|k: int| 0 <= k < mags@.len() ==> mags@[k] < 4_294_967_296,
            out@.len() == i,
            forall|k: int| 0 <= k < i ==> #[trigger] out@[k] == rolling_value(mags@, window as int, k),
            rolling_bounded(out@),
        decreases n - i,
    {
        let start: usize = if i + 1 >= window {
            i + 1 - window
        } else {
            0
        };
        let count: usize = i - start + 1;
        assert(count as int == window_count(i as int, window as int));
        if count < MIN_PERIODS {
            out.push(None);
        } else {
            let mut sum: u128 = 0;
            let mut j: usize = start;
            while j <= i
                invariant
                    start <= j <= i + 1,
                    i < n,
                    n == mags@.len(),
                    forall|k: int| 0 <= k < mags@.len() ==> mags@[k] < 4_294_967_296,
                    sum as int == sum_range(mags@, start as int, j as int),
                decreases i + 1 - j,
            {
                proof {
                    lemma_sum_range_bound(mags@, start as int, j as int);
                    assert((j - start) * 4_294_967_296 <= 18_446_744_073_709_551_616 * 4_294_967_296)
                        by (nonlinear_arith)
                        requires
                            0 <= j - start <= 18_446_744_073_709_551_616int,
                    ;
                }
                sum = sum + mags[j] as u128;
                j = j + 1;
            }
            proof {
                lemma_sum_range_mean_bound(mags@, start as int, i + 1);
            }
            let mean: u128 = sum / (count as u128);
            out.push(Some(mean as u64));
        }
        i = i + 1;
    }
    out
}

/// The rolling mean is undefined exactly where fewer than `MIN_PERIODS`
/// samples of history exist, and never stands in for them with a number;
/// with a window of at least `MIN_WINDOW`, that is the first four indices.
pub proof fn lemma_undefined_with_short_history(mags: Seq<u64>, w: int, i: int)
    requires
        w >= 1,
        0 <= i,
    ensures
        rolling_value(mags, w, i) is None <==> window_count(i, w) < MIN_PERIODS,
        w >= MIN_WINDOW ==> (rolling_value(mags, w, i) is None <==> i + 1 < MIN_PERIODS),
{
}

} // verus!
