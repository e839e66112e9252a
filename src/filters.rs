//! Filter bank: first-order high-pass filter and trapezoidal integrator over
//! samples whose timestamps are in microseconds.
use vstd::prelude::*;
use crate::numeric::{abs, tdiv, div_trunc, lemma_tdiv_bound};

verus! {

/// Largest magnitude of a value that the filters accept.
pub const VALUE_BOUND: i64 = 100_000_000_000;

/// Microseconds per second.
pub const MICROS: i64 = 1_000_000;

/// Timestamps ascend (not strictly) and lie in `[0, MAX_TIME]`.
pub open spec fn times_ok(t: Seq<i64>) -> bool {
    &&& forall|i: int| 0 <= i < t.len() ==> 0 <= #[trigger] t[i] <= crate::types::MAX_TIME
    &&& forall|i: int, j: int| 0 <= i <= j < t.len() ==> #[trigger] t[i] <= #[trigger] t[j]
}

/// Every value lies within `VALUE_BOUND`.
pub open spec fn values_ok(x: Seq<i64>) -> bool {
    forall|i: int| 0 <= i < x.len() ==> abs(#[trigger] x[i] as int) <= VALUE_BOUND
}

/// Area of the trapezoid between samples `i - 1` and `i` (value times seconds),
/// or 0 where time does not advance.
pub open spec fn trap_step(x: Seq<i64>, t: Seq<i64>, i: int) -> int {
    let dt = t[i] - t[i - 1];
    if dt > 0 {
        tdiv((x[i - 1] + x[i]) * dt, 2 * MICROS)
    } else {
        0
    }
}

/// Running trapezoidal integral up to sample `i`.
pub open spec fn trap_sum(x: Seq<i64>, t: Seq<i64>, i: int) -> int
    decreases i,
{
    if i <= 0 {
        0
    } else {
        trap_sum(x, t, i - 1) + trap_step(x, t, i)
    }
}

/// RC time constant in microseconds for a cutoff in millihertz, with 355/113 for pi.
pub open spec fn rc_us_spec(cutoff_mhz: int) -> int {
    113_000_000_000int / (710 * cutoff_mhz)
}

/// State of the high-pass filter after sample `i`: the output and the last raw
/// value that entered the filter.
pub open spec fn high_pass_state(x: Seq<i64>, t: Seq<i64>, rc: int, i: int) -> (int, int)
    decreases i,
{
    if i <= 0 {
        (0, x[0] as int)
    } else {
        let prev = high_pass_state(x, t, rc, i - 1);
        let dt = t[i] - t[i - 1];
        if dt <= 0 {
            prev
        } else {
            (tdiv(rc * (prev.0 + x[i] - prev.1), rc + dt), x[i] as int)
        }
    }
}

proof fn lemma_trap_step_bound(x: Seq<i64>, t: Seq<i64>, i: int)
    requires
        1 <= i < x.len(),
        x.len() == t.len(),
        values_ok(x),
        times_ok(t),
    ensures
        MICROS * abs(trap_step(x, t, i)) <= VALUE_BOUND * (t[i] - t[i - 1]),
{
    let dt = t[i] - t[i - 1];
    assert(t[i - 1] <= t[i]);
    if dt > 0 {
        let a = (x[i - 1] + x[i]) * dt;
        lemma_tdiv_bound(a, 2 * MICROS);
        assert(abs(a) <= 2 * VALUE_BOUND * dt) by (nonlinear_arith)
            requires
                a == (x[i - 1] + x[i]) * dt,
                abs(x[i - 1] as int) <= VALUE_BOUND,
                abs(x[i] as int) <= VALUE_BOUND,
                dt > 0,
        ;
        let q = tdiv(a, 2 * MICROS);
        assert(trap_step(x, t, i) == q);
        assert(2 * MICROS * abs(q) <= 2 * VALUE_BOUND * dt);
        assert(MICROS * abs(q) <= VALUE_BOUND * dt) by (nonlinear_arith)
            requires
                2 * MICROS * abs(q) <= 2 * VALUE_BOUND * dt,
        ;
    } else {
        assert(trap_step(x, t, i) == 0);
        assert(dt == 0);
    }
}

/// Cumulative trapezoidal integral of `values` over `timestamps`, in value
/// units times seconds. The first output is 0; a step where time does not
/// advance keeps the total. Mismatched lengths give all zeros.
pub fn integrate_trapezoidal(values: &Vec<i64>, timestamps: &Vec<i64>) -> (r: Vec<i64>)
    requires
        values@.len() == timestamps@.len() ==> values_ok(values@) && times_ok(timestamps@),
    ensures
        r@.len() == values@.len(),
        values@.len() != timestamps@.len() ==> forall|i: int| 0 <= i < r@.len() ==> r@[i] == 0,
        values@.len() == timestamps@.len() ==> forall|i: int|
            0 <= i < r@.len() ==> r@[i] == trap_sum(values@, timestamps@, i),
        values@.len() == timestamps@.len() ==> forall|i: int|
            0 <= i < r@.len() ==> MICROS * abs(#[trigger] r@[i] as int) <= VALUE_BOUND * (timestamps@[i] - timestamps@[0]),
{
    let n = values.len();
    let mut out: Vec<i64> = Vec::new();
    if n != timestamps.len() {
        let mut k: usize = 0;
        while k < n
            invariant
                k <= n,
                out@.len() == k,
                forall|i: int| 0 <= i < k ==> out@[i] == 0,
            decreases n - k,
        {
            out.push(0);
            k = k + 1;
        }
        return out;
    }
    if n == 0 {
        return out;
    }
    out.push(0);
    let mut total: i64 = 0;
    let mut i: usize = 1;
    while i < n
        invariant
            1 <= i <= n,
            n == values@.len(),
            n == timestamps@.len(),
            values_ok(values@),
            times_ok(timestamps@),
            out@.len() == i,
            total == trap_sum(values@, timestamps@, i - 1),
            MICROS * abs(total as int) <= VALUE_BOUND * (timestamps@[i - 1] - timestamps@[0]),
            forall|k: int| 0 <= k < i ==> out@[k] == trap_sum(values@, timestamps@, k),
            forall|k: int| 0 <= k < i ==> MICROS * abs(#[trigger] out@[k] as int) <= VALUE_BOUND * (timestamps@[k] - timestamps@[0]),
        decreases n - i,
    {
        proof {
            lemma_trap_step_bound(values@, timestamps@, i as int);
            assert(timestamps@[0] <= timestamps@[i - 1]);
            assert(timestamps@[i as int] <= crate::types::MAX_TIME);
            assert(VALUE_BOUND * (timestamps@[i as int] - timestamps@[0]) <= VALUE_BOUND * crate::types::MAX_TIME)
                by (nonlinear_arith)
                requires
                    0 <= timestamps@[0] <= timestamps@[i as int] <= crate::types::MAX_TIME,
            ;
        }
        let dt: i64 = timestamps[i] - timestamps[i - 1];
        if dt > 0 {
            let area: i128 = div_trunc(
                ((values[i - 1] as i128) + (values[i] as i128)) * (dt as i128),
                2 * (MICROS as i128),
            );
            total = total + area as i64;
        }
        out.push(total);
        i = i + 1;
    }
    out
}

/// RC time constant, in microseconds, of a filter with cutoff `cutoff_mhz` millihertz.
pub fn rc_us(cutoff_mhz: u64) -> (r: i64)
    requires
        cutoff_mhz > 0,
    ensures
        r == rc_us_spec(cutoff_mhz as int),
        0 <= r <= 159_154_929,
{
    let d: u128 = 710 * (cutoff_mhz as u128);
    proof {
        vstd::arithmetic::div_mod::lemma_div_is_ordered_by_denominator(113_000_000_000int, 710, d as int);
    }
    (113_000_000_000u128 / d) as i64
}

proof fn lemma_high_pass_step(y: int, dx: int, rc: int, dt: int)
    requires
        0 <= rc,
        dt > 0,
    ensures
        abs(tdiv(rc * (y + dx), rc + dt)) <= abs(y + dx),
{
    let a = rc * (y + dx);
    let b = rc + dt;
    let q = tdiv(a, b);
    lemma_tdiv_bound(a, b);
    assert(abs(a) <= b * abs(y + dx)) by (nonlinear_arith)
        requires
            a == rc * (y + dx),
            b == rc + dt,
            0 <= rc,
            dt > 0,
    ;
    assert(abs(q) <= abs(y + dx)) by (nonlinear_arith)
        requires
            b * abs(q) <= abs(a),
            abs(a) <= b * abs(y + dx),
            b > 0,
    ;
}

/// First-order RC high-pass filter with cutoff `cutoff_mhz` millihertz:
/// `y[i] = rc * (y[i-1] + x[i] - x[i-1]) / (rc + dt)`, rounded toward zero,
/// starting from 0. A step where time does not advance repeats the previous
/// output and leaves the filter's memory of the input unchanged. Inputs of
/// fewer than two samples, or of mismatched lengths, come back unchanged.
pub fn high_pass_rc(values: &Vec<i64>, timestamps: &Vec<i64>, cutoff_mhz: u64) -> (r: Vec<i64>)
    requires
        cutoff_mhz > 0,
        values@.len() <= crate::types::MAX_SAMPLES,
        values@.len() == timestamps@.len() ==> values_ok(values@) && times_ok(timestamps@),
    ensures
        r@.len() == values@.len(),
        values@.len() <= 1 || values@.len() != timestamps@.len() ==> r@ == values@,
        values@.len() > 1 && values@.len() == timestamps@.len() ==> forall|i: int|
            0 <= i < r@.len() ==> r@[i] == high_pass_state(values@, timestamps@, rc_us_spec(cutoff_mhz as int), i).0,
{
    let n = values.len();
    if n <= 1 || n != timestamps.len() {
        return values.clone();
    }
    let rc = rc_us(cutoff_mhz);
    let ghost rcs = rc_us_spec(cutoff_mhz as int);
    let mut out: Vec<i64> = Vec::new();
    out.push(0);
    let mut prev_filtered: i64 = 0;
    let mut prev_raw: i64 = values[0];
    let mut i: usize = 1;
    while i < n
        invariant
            1 <= i <= n,
            n == values@.len(),
            n == timestamps@.len(),
            n <= crate::types::MAX_SAMPLES,
            values_ok(values@),
            times_ok(timestamps@),
            rc == rcs,
            0 <= rc <= 159_154_929,
            out@.len() == i,
            (prev_filtered as int, prev_raw as int) == high_pass_state(values@, timestamps@, rcs, i - 1),
            abs(prev_filtered as int) <= 2 * VALUE_BOUND * (i - 1),
            abs(prev_raw as int) <= VALUE_BOUND,
            forall|k: int| 0 <= k < i ==> out@[k] == high_pass_state(values@, timestamps@, rcs, k).0,
        decreases n - i,
    {
        let dt: i64 = timestamps[i] - timestamps[i - 1];
        if dt > 0 {
            let sum: i128 = (prev_filtered as i128) + (values[i] as i128) - (prev_raw as i128);
            proof {
                lemma_high_pass_step(prev_filtered as int, values@[i as int] - prev_raw, rc as int, dt as int);
                assert(abs(values@[i as int] as int) <= VALUE_BOUND);
                assert(abs(sum as int) <= 2 * VALUE_BOUND * i) by (nonlinear_arith)
                    requires
                        sum as int == prev_filtered as int + values@[i as int] as int - prev_raw as int,
                        abs(prev_filtered as int) <= 2 * VALUE_BOUND * (i - 1),
                        abs(prev_raw as int) <= VALUE_BOUND,
                        abs(values@[i as int] as int) <= VALUE_BOUND,
                ;
                assert(abs(rc * (sum as int)) <= 159_154_929 * (2 * VALUE_BOUND * i)) by (nonlinear_arith)
                    requires
                        0 <= rc <= 159_154_929,
                        abs(sum as int) <= 2 * VALUE_BOUND * i,
                        i >= 0,
                ;
                assert(2 * VALUE_BOUND * i <= 2 * VALUE_BOUND * crate::types::MAX_SAMPLES)
                    by (nonlinear_arith)
                    requires
                        0 <= i <= crate::types::MAX_SAMPLES,
                ;
            }
            let y: i128 = div_trunc((rc as i128) * sum, (rc as i128) + (dt as i128));
            assert(abs(y as int) <= 2 * VALUE_BOUND * i);
            prev_filtered = y as i64;
            prev_raw = values[i];
        }
        assert(2 * VALUE_BOUND * (i - 1) <= 2 * VALUE_BOUND * i) by (nonlinear_arith)
            requires
                i >= 1,
        ;
        assert(abs(prev_filtered as int) <= 2 * VALUE_BOUND * i);
        out.push(prev_filtered);
        i = i + 1;
    }
    out
}

} // verus!
