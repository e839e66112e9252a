//! Velocity and distance by double integration of acceleration magnitude,
//! scaled so that the distance at the sprint's end matches the nominal one.
use vstd::prelude::*;
use crate::numeric::{abs, tdiv, div_trunc, lemma_tdiv_bound, isqrt_spec};
use crate::types::{AccelerationSample, accel_trace_ok, MAX_TIME};
use crate::filters::{
    high_pass_rc, integrate_trapezoidal, high_pass_state, trap_sum, rc_us_spec, values_ok,
    times_ok, VALUE_BOUND, MICROS,
};
use crate::splits::{curve_ok, UM_PER_M, MAX_DISTANCE_M, DIST_BOUND};

verus! {

/// Cutoff of the drift-removing filter, in millihertz.
pub const DRIFT_CUTOFF_MHZ: u64 = 100;

/// Shortest sprint, in microseconds, that is integrated.
pub const MIN_DURATION_US: i64 = 2_000_000;

/// Fewest samples, in the trace and in the sprint window, that are integrated.
pub const MIN_SAMPLE_COUNT: usize = 20;

/// Margin, in microseconds, kept on each side of the sprint window.
pub const WINDOW_BUFFER_US: i64 = 500_000;

/// Least integrated distance, in micrometres, that is scaled.
pub const MIN_INTEGRATED_UM: i64 = 100_000;

/// Velocity and distance curves as (microseconds from sprint start, value)
/// pairs in micrometres per second and micrometres, the peak velocity and its
/// time, and the applied scale factor in millionths.
pub struct VelocityResult {
    pub velocity_curve: Vec<(i64, i64)>,
    pub distance_curve: Vec<(i64, i64)>,
    pub max_velocity: i64,
    pub time_to_max_velocity: i64,
    pub scale_factor: i64,
}

/// Acceleration magnitude of a sample in micrometres per second squared
/// (1 g = 9.81 m/s^2), rounded down.
pub open spec fn accel_um_of(s: AccelerationSample) -> int {
    isqrt_spec(s.sum_sq()) * 981 / 100
}

/// The samples among the first `k` whose timestamp lies in `[lo, hi]`.
pub open spec fn window_upto(accel: Seq<AccelerationSample>, lo: int, hi: int, k: int) -> Seq<AccelerationSample>
    decreases k,
{
    if k <= 0 {
        Seq::empty()
    } else {
        let prev = window_upto(accel, lo, hi, k - 1);
        if lo <= accel[k - 1].timestamp <= hi {
            prev.push(accel[k - 1])
        } else {
            prev
        }
    }
}

/// The samples of the sprint, with `WINDOW_BUFFER_US` on each side.
pub open spec fn sprint_window(accel: Seq<AccelerationSample>, start: int, end: int) -> Seq<AccelerationSample> {
    window_upto(accel, start - WINDOW_BUFFER_US, end + WINDOW_BUFFER_US, accel.len() as int)
}

pub open spec fn times_of(w: Seq<AccelerationSample>) -> Seq<i64> {
    Seq::new(w.len(), |i: int| w[i].timestamp)
}

pub open spec fn accel_um_seq(w: Seq<AccelerationSample>) -> Seq<i64> {
    Seq::new(w.len(), |i: int| accel_um_of(w[i]) as i64)
}

/// Acceleration with drift removed.
pub open spec fn high_passed(w: Seq<AccelerationSample>) -> Seq<i64> {
    Seq::new(
        w.len(),
        |i: int| high_pass_state(accel_um_seq(w), times_of(w), rc_us_spec(DRIFT_CUTOFF_MHZ as int), i).0 as i64,
    )
}

/// Unscaled velocity, micrometres per second.
pub open spec fn raw_velocity(w: Seq<AccelerationSample>) -> Seq<i64> {
    Seq::new(w.len(), |i: int| trap_sum(high_passed(w), times_of(w), i) as i64)
}

/// Unscaled distance, micrometres.
pub open spec fn raw_distance(w: Seq<AccelerationSample>) -> Seq<i64> {
    Seq::new(w.len(), |i: int| trap_sum(raw_velocity(w), times_of(w), i) as i64)
}

/// Index of the first time at or after `end` from `i` on; the last index if none.
pub open spec fn end_index_from(ts: Seq<i64>, end: int, i: int) -> int
    decreases ts.len() - i,
{
    if i < 0 || i >= ts.len() {
        ts.len() - 1
    } else if ts[i] >= end {
        i
    } else {
        end_index_from(ts, end, i + 1)
    }
}

/// Integrated distance at the sprint's end.
pub open spec fn integrated_distance(w: Seq<AccelerationSample>, end: int) -> int {
    raw_distance(w)[end_index_from(times_of(w), end, 0)] as int
}

/// `target / integrated` lies in [0.33, 3.0].
pub open spec fn scale_in_range(target: int, integrated: int) -> bool {
    33 * integrated <= 100 * target && target <= 3 * integrated
}

/// The inputs on which no velocity profile is produced.
pub open spec fn velocity_rejected(accel: Seq<AccelerationSample>, start: int, end: int, distance: int) -> bool {
    let w = sprint_window(accel, start, end);
    ||| end - start < MIN_DURATION_US
    ||| accel.len() < MIN_SAMPLE_COUNT
    ||| distance == 0
    ||| w.len() < MIN_SAMPLE_COUNT
    ||| !values_ok(high_passed(w))
    ||| !values_ok(raw_velocity(w))
    ||| integrated_distance(w, end) < MIN_INTEGRATED_UM
    ||| !scale_in_range(distance * UM_PER_M, integrated_distance(w, end))
}

/// Peak velocity over the first `k` points and its time: the first strictly
/// greatest value, starting from (0, 0).
pub open spec fn peak_upto(curve: Seq<(i64, i64)>, k: int) -> (int, int)
    decreases k,
{
    if k <= 0 {
        (0, 0)
    } else {
        let p = peak_upto(curve, k - 1);
        if curve[k - 1].1 > p.0 {
            (curve[k - 1].1 as int, curve[k - 1].0 as int)
        } else {
            p
        }
    }
}

/// `v` is the velocity profile of the sprint from `start` to `end` over a
/// nominal `distance` in metres: both curves, scaled by nominal over
/// integrated distance, the scale factor in millionths, and the peak.
pub open spec fn velocity_matches(
    v: VelocityResult,
    accel: Seq<AccelerationSample>,
    start: int,
    end: int,
    distance: int,
) -> bool {
    let w = sprint_window(accel, start, end);
    let integ = integrated_distance(w, end);
    let target = distance * UM_PER_M;
    &&& v.velocity_curve@.len() == w.len()
    &&& v.distance_curve@.len() == w.len()
    &&& forall|i: int| 0 <= i < w.len() ==> #[trigger] v.velocity_curve@[i] == (
        (w[i].timestamp - start) as i64,
        tdiv(raw_velocity(w)[i] * target, integ) as i64,
    )
    &&& forall|i: int| 0 <= i < w.len() ==> #[trigger] v.distance_curve@[i] == (
        (w[i].timestamp - start) as i64,
        tdiv(raw_distance(w)[i] * target, integ) as i64,
    )
    &&& v.scale_factor == tdiv(target * 1_000_000, integ)
    &&& (v.max_velocity as int, v.time_to_max_velocity as int) == peak_upto(v.velocity_curve@, w.len() as int)
    &&& curve_ok(v.distance_curve@)
}

proof fn lemma_scaled_bound(x: int, target: int, integ: int)
    requires
        integ > 0,
        0 <= target <= 3 * integ,
    ensures
        abs(tdiv(x * target, integ)) <= 3 * abs(x),
{
    lemma_tdiv_bound(x * target, integ);
    let q = tdiv(x * target, integ);
    assert(abs(x * target) <= integ * (3 * abs(x))) by (nonlinear_arith)
        requires
            0 <= target <= 3 * integ,
            integ > 0,
    ;
    assert(abs(q) <= 3 * abs(x)) by (nonlinear_arith)
        requires
            integ * abs(q) <= abs(x * target),
            abs(x * target) <= integ * (3 * abs(x)),
            integ > 0,
    ;
}

/// The sprint window of `accel` and its properties.
fn select_window(accel: &Vec<AccelerationSample>, lo: i64, hi: i64) -> (w: Vec<AccelerationSample>)
    requires
        accel_trace_ok(accel@),
    ensures
        w@ == window_upto(accel@, lo as int, hi as int, accel@.len() as int),
        accel_trace_ok(w@),
        w@.len() <= accel@.len(),
{
    let mut w: Vec<AccelerationSample> = Vec::new();
    let mut k: usize = 0;
    while k < accel.len()
        invariant
            k <= accel@.len(),
            accel_trace_ok(accel@),
            w@ == window_upto(accel@, lo as int, hi as int, k as int),
            w@.len() <= k,
            forall|i: int| 0 <= i < w@.len() ==> (#[trigger] w@[i]).in_range(),
            forall|i: int, j: int| 0 <= i < j < w@.len() ==> (#[trigger] w@[i]).timestamp < (#[trigger] w@[j]).timestamp,
            forall|i: int| 0 <= i < w@.len() ==> exists|j: int| 0 <= j < k && #[trigger] w@[i] == accel@[j],
        decreases accel@.len() - k,
    {
        let s = accel[k];
        if lo <= s.timestamp && s.timestamp <= hi {
            proof {
                assert forall|i: int| 0 <= i < w@.len() implies (#[trigger] w@[i]).timestamp < s.timestamp by {
                    let j = choose|j: int| 0 <= j < k && w@[i] == accel@[j];
                    assert(accel@[j].timestamp < accel@[k as int].timestamp);
                }
            }
            w.push(s);
            proof {
                assert forall|i: int| 0 <= i < w@.len() implies exists|j: int| 0 <= j < k + 1 && #[trigger] w@[i] == accel@[j] by {
                    if i == w@.len() - 1 {
                        assert(w@[i] == accel@[k as int]);
                    } else {
                        let j = choose|j: int| 0 <= j < k && w@[i] == accel@[j];
                        assert(w@[i] == accel@[j]);
                    }
                }
            }
        }
        k = k + 1;
    }
    w
}

/// Tells whether every value lies within `VALUE_BOUND`.
fn all_within_bound(x: &Vec<i64>) -> (r: bool)
    ensures
        r == values_ok(x@),
{
    let mut k: usize = 0;
    while k < x.len()
        invariant
            k <= x@.len(),
            forall|i: int| 0 <= i < k ==> abs(#[trigger] x@[i] as int) <= VALUE_BOUND,
        decreases x@.len() - k,
    {
        if x[k] > VALUE_BOUND || x[k] < -VALUE_BOUND {
            assert(!(abs(x@[k as int] as int) <= VALUE_BOUND));
            return false;
        }
        k = k + 1;
    }
    true
}

/// Velocity and distance profile of a sprint from `sprint_start` to
/// `sprint_end` (microseconds) over a nominal `distance` in metres. The
/// acceleration magnitude within the sprint window is converted to
/// micrometres per second squared, freed of drift by a 0.1 Hz high-pass
/// filter, integrated twice, and scaled by nominal over integrated distance
/// at the sprint's end. None where `velocity_rejected` holds: too short, too
/// few samples, values beyond the integrator's range, too little integrated
/// distance, or a scale factor outside [0.33, 3.0].
pub fn calculate_velocity(
    accel: &Vec<AccelerationSample>,
    sprint_start: i64,
    sprint_end: i64,
    distance: u32,
) -> (r: Option<VelocityResult>)
    requires
        accel_trace_ok(accel@),
        0 <= sprint_start <= MAX_TIME,
        0 <= sprint_end <= MAX_TIME,
        distance <= MAX_DISTANCE_M,
    ensures
        r is None <==> velocity_rejected(accel@, sprint_start as int, sprint_end as int, distance as int),
        r matches Some(v) ==> velocity_matches(v, accel@, sprint_start as int, sprint_end as int, distance as int),
        r matches Some(v) ==> v.velocity_curve@.len() <= accel@.len(),
        !scale_in_range(
            distance * UM_PER_M,
            integrated_distance(sprint_window(accel@, sprint_start as int, sprint_end as int), sprint_end as int),
        ) ==> r is None,
{
    if sprint_end - sprint_start < MIN_DURATION_US || accel.len() < MIN_SAMPLE_COUNT || distance == 0 {
        return None;
    }
    let w = select_window(accel, sprint_start - WINDOW_BUFFER_US, sprint_end + WINDOW_BUFFER_US);
    let ghost ws = w@;
    assert(ws == sprint_window(accel@, sprint_start as int, sprint_end as int));
    if w.len() < MIN_SAMPLE_COUNT {
        return None;
    }
    let n = w.len();
    let mut ts: Vec<i64> = Vec::new();
    let mut mags: Vec<i64> = Vec::new();
    let mut k: usize = 0;
    while k < n
        invariant
            k <= n,
            n == ws.len(),
            w@ == ws,
            accel_trace_ok(ws),
            ts@.len() == k,
            mags@.len() == k,
            forall|j: int| 0 <= j < k ==> #[trigger] ts@[j] == ws[j].timestamp,
            forall|j: int| 0 <= j < k ==> #[trigger] mags@[j] == accel_um_of(ws[j]) as i64,
            forall|j: int| 0 <= j < k ==> 0 <= #[trigger] mags@[j] <= 43_000_000_000,
        decreases n - k,
    {
        assert(ws[k as int].in_range());
        let m = crate::types::magnitude(&w[k]);
        ts.push(w[k].timestamp);
        mags.push((m as i64) * 981 / 100);
        k = k + 1;
    }
    assert(ts@ =~= times_of(ws));
    assert(mags@ =~= accel_um_seq(ws));
    assert(times_ok(ts@)) by {
        assert forall|i: int, j: int| 0 <= i <= j < ts@.len() implies #[trigger] ts@[i] <= #[trigger] ts@[j] by {
            if i < j {
                assert(ws[i].timestamp < ws[j].timestamp);
            }
        }
        assert forall|i: int| 0 <= i < ts@.len() implies 0 <= #[trigger] ts@[i] <= MAX_TIME by {
            assert(ws[i].in_range());
        }
    }
    assert(values_ok(mags@));
    let hp = high_pass_rc(&mags, &ts, DRIFT_CUTOFF_MHZ);
    assert(hp@ =~= high_passed(ws));
    if !all_within_bound(&hp) {
        return None;
    }
    let rv = integrate_trapezoidal(&hp, &ts);
    assert(rv@ =~= raw_velocity(ws));
    if !all_within_bound(&rv) {
        return None;
    }
    let rd = integrate_trapezoidal(&rv, &ts);
    assert(rd@ =~= raw_distance(ws));
    let mut e: usize = 0;
    while e < n && ts[e] < sprint_end
        invariant
            e <= n,
            n == ts@.len(),
            end_index_from(ts@, sprint_end as int, 0) == end_index_from(ts@, sprint_end as int, e as int),
        decreases n - e,
    {
        e = e + 1;
    }
    let end_idx: usize = if e < n {
        e
    } else {
        n - 1
    };
    let integ: i64 = rd[end_idx];
    assert(integ == integrated_distance(ws, sprint_end as int));
    if integ < MIN_INTEGRATED_UM {
        return None;
    }
    let target: i64 = (distance as i64) * UM_PER_M;
    assert(target <= 1_000_000_000_000);
    if !((integ as i128) * 33 <= (target as i128) * 100 && (target as i128) <= (integ as i128) * 3) {
        return None;
    }
    let scale: i128 = div_trunc((target as i128) * 1_000_000, integ as i128);
    proof {
        lemma_tdiv_bound((target as int) * 1_000_000, integ as int);
    }
    let mut vel: Vec<(i64, i64)> = Vec::new();
    let mut dist: Vec<(i64, i64)> = Vec::new();
    let mut i: usize = 0;
    while i < n
        invariant
            i <= n,
            n == ws.len(),
            n == ts@.len(),
            ts@ == times_of(ws),
            rv@ == raw_velocity(ws),
            rd@ == raw_distance(ws),
            values_ok(rv@),
            times_ok(ts@),
            forall|j: int| 0 <= j < n ==> MICROS * abs(#[trigger] rd@[j] as int) <= VALUE_BOUND * (ts@[j] - ts@[0]),
            0 <= sprint_start <= MAX_TIME,
            integ >= MIN_INTEGRATED_UM,
            0 <= target <= 3 * integ,
            target == distance * UM_PER_M,
            target <= 1_000_000_000_000,
            vel@.len() == i,
            dist@.len() == i,
            forall|j: int| 0 <= j < i ==> #[trigger] vel@[j] == (
                (ws[j].timestamp - sprint_start) as i64,
                tdiv(raw_velocity(ws)[j] * target, integ as int) as i64,
            ),
            forall|j: int| 0 <= j < i ==> #[trigger] dist@[j] == (
                (ws[j].timestamp - sprint_start) as i64,
                tdiv(raw_distance(ws)[j] * target, integ as int) as i64,
            ),
            forall|j: int| 0 <= j < i ==> abs((#[trigger] dist@[j]).0 as int) <= MAX_TIME
                && abs(dist@[j].1 as int) <= DIST_BOUND,
        decreases n - i,
    {
        let t_rel: i64 = ts[i] - sprint_start;
        proof {
            assert(0 <= ts@[i as int] <= MAX_TIME);
            assert(abs(rv@[i as int] as int) <= VALUE_BOUND);
            assert(0 <= ts@[0] <= ts@[i as int]);
            assert(MICROS * abs(rd@[i as int] as int) <= VALUE_BOUND * (ts@[i as int] - ts@[0]));
            assert(VALUE_BOUND * (ts@[i as int] - ts@[0]) <= VALUE_BOUND * MAX_TIME) by (nonlinear_arith)
                requires
                    0 <= ts@[0] <= ts@[i as int] <= MAX_TIME,
            ;
            assert(abs(rd@[i as int] as int) <= 10_000_000_000_000_000);
            lemma_scaled_bound(rv@[i as int] as int, target as int, integ as int);
            lemma_scaled_bound(rd@[i as int] as int, target as int, integ as int);
            assert(abs((rv@[i as int] as int) * (target as int)) <= VALUE_BOUND * 1_000_000_000_000) by (nonlinear_arith)
                requires
                    abs(rv@[i as int] as int) <= VALUE_BOUND,
                    0 <= target <= 1_000_000_000_000int,
            ;
            assert(abs((rd@[i as int] as int) * (target as int)) <= 10_000_000_000_000_000 * 1_000_000_000_000) by (nonlinear_arith)
                requires
                    abs(rd@[i as int] as int) <= 10_000_000_000_000_000,
                    0 <= target <= 1_000_000_000_000int,
            ;
        }
        let v: i128 = div_trunc((rv[i] as i128) * (target as i128), integ as i128);
        let d: i128 = div_trunc((rd[i] as i128) * (target as i128), integ as i128);
        vel.push((t_rel, v as i64));
        dist.push((t_rel, d as i64));
        i = i + 1;
    }
    let mut max_v: i64 = 0;
    let mut max_t: i64 = 0;
    let mut j: usize = 0;
    while j < n
        invariant
            j <= n,
            n == vel@.len(),
            (max_v as int, max_t as int) == peak_upto(vel@, j as int),
        decreases n - j,
    {
        let (t, v) = vel[j];
        if v > max_v {
            max_v = v;
            max_t = t;
        }
        j = j + 1;
    }
    Some(
        VelocityResult {
            velocity_curve: vel,
            distance_curve: dist,
            max_velocity: max_v,
            time_to_max_velocity: max_t,
            scale_factor: scale as i64,
        },
    )
}

/// When nominal over integrated distance falls outside [0.33, 3.0], the
/// profile is rejected: the scale factor is never clamped into range.
pub proof fn lemma_out_of_range_scale_rejected(accel: Seq<AccelerationSample>, start: int, end: int, distance: int)
    requires
        !scale_in_range(
            distance * UM_PER_M,
            integrated_distance(sprint_window(accel, start, end), end),
        ),
    ensures
        velocity_rejected(accel, start, end, distance),
{
}

} // verus!
