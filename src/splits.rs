//! Split times every 10 m, interpolated on a (time, distance) curve with time
//! in microseconds and distance in micrometres.
use vstd::prelude::*;
use crate::numeric::{abs, tdiv, div_trunc, lemma_tdiv_bound};

verus! {

/// Length of one split, in micrometres.
pub const SPLIT_INTERVAL_UM: i64 = 10_000_000;

/// Micrometres per metre.
pub const UM_PER_M: i64 = 1_000_000;

/// Longest nominal distance accepted, in metres.
pub const MAX_DISTANCE_M: u32 = 1_000_000;

/// Largest distance magnitude on a curve, in micrometres.
pub const DIST_BOUND: i64 = 1_000_000_000_000_000_000;

/// One split: the distance mark (micrometres), the time it was reached
/// (microseconds from sprint start) and the mean velocity over the segment
/// that ends there (micrometres per second).
#[derive(Clone, Copy, Debug, PartialEq, Eq)]
pub struct ComputedSplit {
    pub distance_mark: i64,
    pub time: i64,
    pub segment_velocity: i64,
}

/// A curve whose times and distances lie within the accepted bounds.
pub open spec fn curve_ok(curve: Seq<(i64, i64)>) -> bool {
    forall|i: int|
        0 <= i < curve.len() ==> abs((#[trigger] curve[i]).0 as int) <= crate::types::MAX_TIME
            && abs(curve[i].1 as int) <= DIST_BOUND
}

/// The segment from point `i` to point `i + 1` spans distance `d`.
pub open spec fn brackets(curve: Seq<(i64, i64)>, d: int, i: int) -> bool {
    curve[i].1 <= d && d <= curve[i + 1].1
}

/// Time at distance `d` by linear interpolation on segment `i` (the segment's
/// start time where its two distances are equal), rounded toward zero.
pub open spec fn interp_value(curve: Seq<(i64, i64)>, d: int, i: int) -> int {
    let t1 = curve[i].0 as int;
    let d1 = curve[i].1 as int;
    let t2 = curve[i + 1].0 as int;
    let d2 = curve[i + 1].1 as int;
    if d2 == d1 {
        t1
    } else {
        t1 + tdiv((d - d1) * (t2 - t1), d2 - d1)
    }
}

/// Interpolated time at distance `d` on the first segment from `i` on that spans it.
pub open spec fn interp_from(curve: Seq<(i64, i64)>, d: int, i: int) -> Option<int>
    decreases curve.len() - i,
{
    if i < 0 || i + 1 >= curve.len() {
        None
    } else if brackets(curve, d, i) {
        Some(interp_value(curve, d, i))
    } else {
        interp_from(curve, d, i + 1)
    }
}

/// Mean velocity, in micrometres per second, over `dist` micrometres covered
/// in `dt` microseconds; 0 where `dt` is not positive.
pub open spec fn segment_velocity_spec(dist: int, dt: int) -> int {
    if dt > 0 {
        (dist * UM_PER_M) / dt
    } else {
        0
    }
}

/// Splits at the first `k` marks (10 m, 20 m, ...), with the time of the last
/// split emitted (0 before any).
pub open spec fn splits_upto(curve: Seq<(i64, i64)>, k: int) -> (Seq<ComputedSplit>, int)
    decreases k,
{
    if k <= 0 {
        (Seq::empty(), 0)
    } else {
        let prev = splits_upto(curve, k - 1);
        let mark = k * SPLIT_INTERVAL_UM;
        match interp_from(curve, mark, 0) {
            Some(t) => (
                prev.0.push(
                    ComputedSplit {
                        distance_mark: mark as i64,
                        time: t as i64,
                        segment_velocity: segment_velocity_spec(SPLIT_INTERVAL_UM as int, t - prev.1) as i64,
                    },
                ),
                t,
            ),
            None => prev,
        }
    }
}

/// Time at which the distance `target` is reached, extrapolated from the
/// velocity of the curve's last two points; none with fewer than two points,
/// a non-positive velocity, or a time outside the accepted range.
pub open spec fn extrapolate_spec(curve: Seq<(i64, i64)>, target: int) -> Option<int> {
    if curve.len() < 2 {
        None
    } else {
        let (t_last, d_last) = curve[curve.len() - 1];
        let (t_prev, d_prev) = curve[curve.len() - 2];
        let dt = t_last - t_prev;
        let dd = d_last - d_prev;
        if dt <= 0 || dd <= 0 {
            None
        } else {
            let t = t_last + tdiv((target - d_last) * dt, dd);
            if abs(t) <= crate::types::MAX_TIME {
                Some(t)
            } else {
                None
            }
        }
    }
}

/// The splits of `curve` for a sprint of `target_m` metres: one per full 10 m
/// mark that the curve reaches, then a final split at the target when the
/// curve ends within 2% short of it and no split lies there yet.
pub open spec fn splits_spec(curve: Seq<(i64, i64)>, target_m: int) -> Seq<ComputedSplit> {
    if curve.len() == 0 || target_m == 0 {
        Seq::empty()
    } else {
        let target = target_m * UM_PER_M;
        let (marks, prev_time) = splits_upto(curve, target / (SPLIT_INTERVAL_UM as int));
        let last_dist = curve[curve.len() - 1].1 as int;
        let last_mark = if marks.len() == 0 {
            0
        } else {
            marks[marks.len() - 1].distance_mark as int
        };
        if 50 * last_dist > 49 * target && last_dist < target && (marks.len() == 0 || last_mark
            != target) {
            match extrapolate_spec(curve, target) {
                Some(t) => marks.push(
                    ComputedSplit {
                        distance_mark: target as i64,
                        time: t as i64,
                        segment_velocity: segment_velocity_spec(target - last_mark, t - prev_time) as i64,
                    },
                ),
                None => marks,
            }
        } else {
            marks
        }
    }
}

proof fn lemma_interp_bound(num: int, den: int, span: int)
    requires
        0 <= num <= den,
        den > 0,
    ensures
        abs(tdiv(num * span, den)) <= abs(span),
{
    lemma_tdiv_bound(num * span, den);
    let q = tdiv(num * span, den);
    assert(abs(num * span) <= den * abs(span)) by (nonlinear_arith)
        requires
            0 <= num <= den,
    ;
    assert(abs(q) <= abs(span)) by (nonlinear_arith)
        requires
            den * abs(q) <= abs(num * span),
            abs(num * span) <= den * abs(span),
            den > 0,
    ;
}

/// Time at distance `d` on `curve` by linear interpolation on the first segment
/// that spans it; none where no segment does.
pub fn interpolate_time(d: i64, curve: &Vec<(i64, i64)>) -> (r: Option<i64>)
    requires
        curve_ok(curve@),
        abs(d as int) <= DIST_BOUND,
    ensures
        match r {
            Some(t) => interp_from(curve@, d as int, 0) == Some(t as int) && abs(t as int) <= crate::types::MAX_TIME,
            None => interp_from(curve@, d as int, 0) is None,
        },
{
    let n = curve.len();
    let mut i: usize = 0;
    while n > 0 && i < n - 1
        invariant
            i <= n,
            n == curve@.len(),
            curve_ok(curve@),
            interp_from(curve@, d as int, 0) == interp_from(curve@, d as int, i as int),
        decreases n - i,
    {
        let (t1, d1) = curve[i];
        let (t2, d2) = curve[i + 1];
        assert(curve_ok(curve@) ==> abs(curve@[i + 1].0 as int) <= crate::types::MAX_TIME);
        assert(abs(curve@[i as int].0 as int) <= crate::types::MAX_TIME);
        if d1 <= d && d <= d2 {
            if d2 == d1 {
                return Some(t1);
            }
            proof {
                lemma_interp_bound((d - d1) as int, (d2 - d1) as int, (t2 - t1) as int);
                assert(abs(curve@[i as int].0 as int) <= crate::types::MAX_TIME);
                assert(abs(((d - d1) as int) * ((t2 - t1) as int)) <= 4 * DIST_BOUND * crate::types::MAX_TIME)
                    by (nonlinear_arith)
                    requires
                        0 <= d - d1 <= 2 * DIST_BOUND,
                        abs((t2 - t1) as int) <= 2 * crate::types::MAX_TIME,
                ;
            }
            let q: i128 = div_trunc(
                ((d as i128) - (d1 as i128)) * ((t2 as i128) - (t1 as i128)),
                (d2 as i128) - (d1 as i128),
            );
            proof {
                let t = t1 + q;
                // between t1 and t2
                assert(abs(q as int) <= abs(t2 - t1));
                if q >= 0 {
                    assert(q as int <= abs((t2 - t1) as int));
                }
                lemma_tdiv_bound(((d as i128) - (d1 as i128)) * ((t2 as i128) - (t1 as i128)), (d2 - d1) as int);
                assert(((d - d1) as int) * ((t2 - t1) as int) >= 0 <==> (t2 - t1) >= 0 || d == d1) by (nonlinear_arith)
                    requires
                        d - d1 >= 0,
                ;
                if t2 >= t1 {
                    assert(q >= 0);
                    assert(q <= t2 - t1);
                } else if d != d1 {
                    assert(q <= 0);
                    assert(-q <= t1 - t2);
                } else {
                    assert(((d - d1) as int) * ((t2 - t1) as int) == 0);
                    assert(q == 0);
                }
            }
            assert(abs(t1 + q) <= crate::types::MAX_TIME);
            assert(interp_value(curve@, d as int, i as int) == t1 + q);
            assert(interp_from(curve@, d as int, i as int) == Some(t1 + q));
            return Some(t1 + (q as i64));
        }
        i = i + 1;
    }
    None
}

/// Mean velocity over `dist` micrometres covered in `dt` microseconds, in
/// micrometres per second; 0 where `dt` is not positive.
pub fn segment_velocity(dist: i64, dt: i64) -> (r: i64)
    requires
        0 <= dist <= MAX_DISTANCE_M * UM_PER_M,
    ensures
        r == segment_velocity_spec(dist as int, dt as int),
        0 <= r <= MAX_DISTANCE_M * UM_PER_M * UM_PER_M,
{
    if dt > 0 {
        assert((dist as int) * 1_000_000 <= 1_000_000_000_000int * 1_000_000) by (nonlinear_arith)
            requires
                0 <= dist <= 1_000_000_000_000int,
        ;
        let num: i128 = (dist as i128) * (UM_PER_M as i128);
        proof {
            vstd::arithmetic::div_mod::lemma_div_pos_is_pos(num as int, dt as int);
            vstd::arithmetic::div_mod::lemma_div_is_ordered_by_denominator(num as int, 1, dt as int);
        }
        (num / (dt as i128)) as i64
    } else {
        0
    }
}

/// Time at which `target` micrometres are reached past the end of `curve`.
pub fn extrapolate_time(target: i64, curve: &Vec<(i64, i64)>) -> (r: Option<i64>)
    requires
        curve_ok(curve@),
        0 <= target <= MAX_DISTANCE_M * UM_PER_M,
    ensures
        match r {
            Some(t) => extrapolate_spec(curve@, target as int) == Some(t as int),
            None => extrapolate_spec(curve@, target as int) is None,
        },
{
    let n = curve.len();
    if n < 2 {
        return None;
    }
    let (t_last, d_last) = curve[n - 1];
    let (t_prev, d_prev) = curve[n - 2];
    assert(curve_ok(curve@) ==> abs(curve@[n - 2].0 as int) <= crate::types::MAX_TIME);
    assert(abs(curve@[n - 1].0 as int) <= crate::types::MAX_TIME);
    let dt: i128 = (t_last as i128) - (t_prev as i128);
    let dd: i128 = (d_last as i128) - (d_prev as i128);
    if dt <= 0 || dd <= 0 {
        return None;
    }
    let extra: i128 = (target as i128) - (d_last as i128);
    proof {
        assert(abs(extra * dt) <= 4 * DIST_BOUND * crate::types::MAX_TIME) by (nonlinear_arith)
            requires
                abs(extra as int) <= 2 * DIST_BOUND,
                0 < dt <= 2 * crate::types::MAX_TIME,
        ;
        lemma_tdiv_bound(extra * dt, dd as int);
    }
    let t: i128 = (t_last as i128) + div_trunc(extra * dt, dd);
    if -(crate::types::MAX_TIME as i128) <= t && t <= crate::types::MAX_TIME as i128 {
        Some(t as i64)
    } else {
        None
    }
}

/// Split times every 10 m along `distance_curve` for a sprint of
/// `target_distance` metres (see `splits_spec`).
pub fn calculate_splits(distance_curve: &Vec<(i64, i64)>, target_distance: u32) -> (r: Vec<ComputedSplit>)
    requires
        curve_ok(distance_curve@),
        target_distance <= MAX_DISTANCE_M,
    ensures
        r@ == splits_spec(distance_curve@, target_distance as int),
{
    let mut out: Vec<ComputedSplit> = Vec::new();
    if distance_curve.len() == 0 || target_distance == 0 {
        return out;
    }
    let target: i64 = (target_distance as i64) * UM_PER_M;
    let count: i64 = target / SPLIT_INTERVAL_UM;
    let mut prev_time: i64 = 0;
    let mut k: i64 = 1;
    while k <= count
        invariant
            1 <= k <= count + 1,
            count == target / SPLIT_INTERVAL_UM,
            0 <= target <= MAX_DISTANCE_M * UM_PER_M,
            curve_ok(distance_curve@),
            (out@, prev_time as int) == splits_upto(distance_curve@, k - 1),
            abs(prev_time as int) <= crate::types::MAX_TIME,
            forall|j: int| 0 <= j < out@.len() ==> 0 <= #[trigger] out@[j].distance_mark <= target,
        decreases count + 1 - k,
    {
        let mark: i64 = k * SPLIT_INTERVAL_UM;
        match interpolate_time(mark, distance_curve) {
            Some(t) => {
                let v = segment_velocity(SPLIT_INTERVAL_UM, t - prev_time);
                out.push(ComputedSplit { distance_mark: mark, time: t, segment_velocity: v });
                prev_time = t;
            },
            None => {},
        }
        k = k + 1;
    }
    let n = distance_curve.len();
    let last_dist: i64 = distance_curve[n - 1].1;
    assert(curve_ok(distance_curve@) ==> abs(distance_curve@[n - 1].1 as int) <= DIST_BOUND);
    let last_mark: i64 = if out.len() == 0 {
        0
    } else {
        out[out.len() - 1].distance_mark
    };
    if (last_dist as i128) * 50 > (target as i128) * 49 && last_dist < target && (out.len() == 0
        || last_mark != target) {
        match extrapolate_time(target, distance_curve) {
            Some(t) => {
                let v = segment_velocity(target - last_mark, t - prev_time);
                out.push(ComputedSplit { distance_mark: target, time: t, segment_velocity: v });
            },
            None => {},
        }
    }
    out
}

} // verus!
