//! Per-sprint analysis: boundary detection, gyroscope summary, velocity
//! profile and splits, assembled into one result; and batches of sprints.
use vstd::prelude::*;
use crate::numeric::isqrt_spec;
use crate::types::{AccelerationSample, GyroscopeSample, ParsedSprint, MAX_TIME, MAX_SAMPLES, MAX_COMPONENT};
use crate::rolling::{rolling_mean, window_samples, rolling_value, window_samples_spec, rounded_count};
use crate::detection::{
    Decision, decide, decide_spec, detect_backward, detect_forward, find_sprint_level,
    min_sprint_time, min_sprint_time_spec, sprint_level_spec, sprint_start_index, starts_sprint,
    at_or_above, forward_hit,
};
use crate::velocity::{calculate_velocity, velocity_matches, velocity_rejected, VelocityResult};
use crate::splits::{calculate_splits, splits_spec, ComputedSplit};

verus! {

/// Fewest accelerometer samples that a sprint needs to be analysed.
pub const MIN_ACCEL_SAMPLES: usize = 100;

/// Fewest gyroscope samples for which a gyroscope summary is made.
pub const MIN_GYRO_SAMPLES: usize = 100;

/// Length of the rolling-mean window, in microseconds.
pub const ROLLING_WINDOW_US: i64 = 1_000_000;

/// Span, in microseconds, over which the forward scan wants the level to stay low.
pub const SUSTAIN_US: i64 = 500_000;

/// Fewest samples of that span.
pub const MIN_SUSTAIN: usize = 5;

/// Sampling period, in microseconds, of the series that the piecewise fit uses (10 Hz).
pub const FIT_STEP_US: i64 = 100_000;

/// About how many points of the velocity profile are kept.
pub const PLOT_POINTS: usize = 500;

/// Least nominal distance, in metres, of a sprint taken from a recording.
pub const MIN_RECORDED_DISTANCE_M: u32 = 60;

/// A recorded sprint is kept for analysis: its nominal distance is at least
/// `MIN_RECORDED_DISTANCE_M` and it has at least `MIN_ACCEL_SAMPLES` samples.
pub fn is_recorded_sprint(distance: u32, accel_len: usize) -> (r: bool)
    ensures
        r == (distance >= MIN_RECORDED_DISTANCE_M && accel_len >= MIN_ACCEL_SAMPLES),
{
    distance >= MIN_RECORDED_DISTANCE_M && accel_len >= MIN_ACCEL_SAMPLES
}

/// Why a sprint could not be analysed.
#[derive(Clone, Copy, Debug, PartialEq, Eq)]
pub enum AnalysisError {
    TooFewSamples,
}

impl AnalysisError {
    /// A readable reason.
    pub fn message(&self) -> (r: &'static str)
        ensures
            r@ == "Too few acceleration samples"@,
    {
        "Too few acceleration samples"
    }
}

/// A gyroscope axis.
#[derive(Clone, Copy, Debug, PartialEq, Eq)]
pub enum Axis {
    X,
    Y,
    Z,
}

impl Axis {
    /// The axis name: "x", "y" or "z".
    pub fn label(&self) -> (r: &'static str)
        ensures
            *self == Axis::X ==> r@ == "x"@,
            *self == Axis::Y ==> r@ == "y"@,
            *self == Axis::Z ==> r@ == "z"@,
    {
        match self {
            Axis::X => "x",
            Axis::Y => "y",
            Axis::Z => "z",
        }
    }
}

/// The acceleration chart: times from sprint start, rolling mean (undefined
/// where too little history), raw magnitude, sprint level and its 90%
/// threshold, and the three end times from sprint start.
pub struct PlotData {
    pub t: Vec<i64>,
    pub rolling: Vec<Option<u64>>,
    pub raw_mag: Vec<u64>,
    pub sprint_level: u64,
    pub threshold: u64,
    pub fwd_time: i64,
    pub bwd_time: i64,
    pub final_time: i64,
}

/// The gyroscope chart: times from sprint start, the three axes, and the axis
/// of greatest variance.
pub struct GyroData {
    pub t: Vec<i64>,
    pub x: Vec<i64>,
    pub y: Vec<i64>,
    pub z: Vec<i64>,
    pub dominant_axis: Axis,
}

/// The velocity profile, thinned to about `PLOT_POINTS` points, with its peak,
/// scale factor (millionths) and split times.
pub struct VelocityData {
    pub t: Vec<i64>,
    pub velocity: Vec<i64>,
    pub distance: Vec<i64>,
    pub max_velocity: i64,
    pub time_to_max_velocity: i64,
    pub scale_factor: i64,
    pub computed_splits: Vec<ComputedSplit>,
}

/// Outcome of the boundary detector, durations in microseconds from sprint start.
#[derive(Clone, Copy, Debug, PartialEq, Eq)]
pub struct DetectionResult {
    pub fwd_dur: i64,
    pub bwd_dur: i64,
    pub final_dur: i64,
    pub gap: i64,
    pub decision: Decision,
    pub sprint_level: u64,
    pub threshold: u64,
}

/// The analysis of one sprint.
pub struct SprintAnalysisResult {
    pub index: usize,
    pub date: String,
    pub distance: u32,
    pub fwd_dur: i64,
    pub bwd_dur: i64,
    pub final_dur: i64,
    pub gap: i64,
    pub decision: Decision,
    pub plot_data: PlotData,
    pub gyro_data: Option<GyroData>,
    pub piecewise_fit: Option<crate::piecewise::PiecewiseFit>,
    pub velocity_data: Option<VelocityData>,
}

pub open spec fn accel_times(a: Seq<AccelerationSample>) -> Seq<i64> {
    Seq::new(a.len(), |i: int| a[i].timestamp)
}

/// Magnitude of each sample, in micro-g.
pub open spec fn mags_of(a: Seq<AccelerationSample>) -> Seq<u64> {
    Seq::new(a.len(), |i: int| isqrt_spec(a[i].sum_sq()) as u64)
}

pub open spec fn span_of(a: Seq<AccelerationSample>) -> int {
    a[a.len() - 1].timestamp - a[0].timestamp
}

/// The rolling mean over a one-second window.
pub open spec fn rolling_of(a: Seq<AccelerationSample>) -> Seq<Option<u64>> {
    let w = window_samples_spec(ROLLING_WINDOW_US as int, a.len() as int, span_of(a));
    Seq::new(a.len(), |i: int| rolling_value(mags_of(a), w, i))
}

/// Samples over which the forward scan wants the level to stay low: half a
/// second of samples rounded up, at least `MIN_SUSTAIN`, cut to the trace.
pub open spec fn sustain_of(a: Seq<AccelerationSample>) -> int {
    sustain_spec(a.len() as int, span_of(a))
}

/// Step between the samples that the piecewise fit uses: the sampling rate
/// over 10 Hz, rounded, at least 1, cut to the trace.
pub open spec fn fit_stride_spec(n: int, span: int) -> int {
    let c = rounded_count(FIT_STEP_US as int, n, span);
    if c < 1 {
        1
    } else if c > n {
        n
    } else {
        c
    }
}

pub open spec fn sustain_spec(n: int, span: int) -> int {
    let c = if span <= 0 {
        n
    } else {
        (SUSTAIN_US * n + span - 1) / span
    };
    if c < MIN_SUSTAIN {
        MIN_SUSTAIN as int
    } else if c > n {
        n
    } else {
        c
    }
}

/// `t` is the sprint start: the time of the first value above the floor, or
/// the first time.
pub open spec fn start_time_ok(ts: Seq<i64>, rolling: Seq<Option<u64>>, t: int) -> bool {
    ||| exists|i: int|
        0 <= i < ts.len() && starts_sprint(rolling[i]) && (forall|k: int|
            0 <= k < i ==> !starts_sprint(#[trigger] rolling[k])) && t == ts[i]
    ||| (forall|k: int| 0 <= k < ts.len() ==> !starts_sprint(#[trigger] rolling[k])) && t == ts[0]
}

/// `t` is the forward scan's end: the time of its first hit, or the last time.
pub open spec fn forward_time_ok(
    ts: Seq<i64>,
    rolling: Seq<Option<u64>>,
    level: u64,
    search_start: int,
    sustain: int,
    t: int,
) -> bool {
    ||| exists|i: int|
        0 <= i < ts.len() && forward_hit(ts, rolling, level, search_start, sustain, i) && (forall|k: int|
            0 <= k < i ==> !forward_hit(ts, rolling, level, search_start, sustain, k)) && t == ts[i]
    ||| (forall|k: int| 0 <= k < ts.len() ==> !forward_hit(ts, rolling, level, search_start, sustain, k))
        && t == ts[ts.len() - 1]
}

/// `t` is the backward scan's end: the time of the last value at or above the
/// threshold, or the first time.
pub open spec fn backward_time_ok(ts: Seq<i64>, rolling: Seq<Option<u64>>, level: u64, t: int) -> bool {
    ||| exists|i: int|
        0 <= i < ts.len() && at_or_above(rolling[i], level) && (forall|k: int|
            i < k < ts.len() ==> !at_or_above(#[trigger] rolling[k], level)) && t == ts[i]
    ||| (forall|k: int| 0 <= k < ts.len() ==> !at_or_above(#[trigger] rolling[k], level)) && t == ts[0]
}

pub open spec fn sum_of(v: Seq<i64>, k: int) -> int
    decreases k,
{
    if k <= 0 {
        0
    } else {
        sum_of(v, k - 1) + v[k - 1]
    }
}

pub open spec fn sum_sq_of(v: Seq<i64>, k: int) -> int
    decreases k,
{
    if k <= 0 {
        0
    } else {
        sum_sq_of(v, k - 1) + v[k - 1] * v[k - 1]
    }
}

/// The variance of `v` times the square of its length.
pub open spec fn spread(v: Seq<i64>) -> int {
    v.len() * sum_sq_of(v, v.len() as int) - sum_of(v, v.len() as int) * sum_of(v, v.len() as int)
}

/// The axis of greatest variance; x before y before z on ties.
pub open spec fn dominant_axis_spec(x: Seq<i64>, y: Seq<i64>, z: Seq<i64>) -> Axis {
    if spread(x) >= spread(y) && spread(x) >= spread(z) {
        Axis::X
    } else if spread(y) >= spread(z) {
        Axis::Y
    } else {
        Axis::Z
    }
}

/// `d` is the gyroscope summary of `g` with times from `start`.
pub open spec fn gyro_matches(d: GyroData, g: Seq<GyroscopeSample>, start: int) -> bool {
    &&& d.t@ == Seq::new(g.len(), |i: int| (g[i].timestamp - start) as i64)
    &&& d.x@ == Seq::new(g.len(), |i: int| g[i].x)
    &&& d.y@ == Seq::new(g.len(), |i: int| g[i].y)
    &&& d.z@ == Seq::new(g.len(), |i: int| g[i].z)
    &&& d.dominant_axis == dominant_axis_spec(d.x@, d.y@, d.z@)
}

/// Step between kept points of a profile of `len` points.
pub open spec fn stride_of(len: int) -> int {
    if len / (PLOT_POINTS as int) < 1 {
        1
    } else {
        len / (PLOT_POINTS as int)
    }
}

/// Every `stride`-th point of `c`, from the first.
pub open spec fn thin(c: Seq<(i64, i64)>, stride: int) -> Seq<(i64, i64)> {
    Seq::new(((c.len() + stride - 1) / stride) as nat, |j: int| c[j * stride])
}

/// `d` is the thinned form of the profile `v`, with the splits of its distance curve.
pub open spec fn velocity_data_matches(d: VelocityData, v: VelocityResult, distance: int) -> bool {
    let s = stride_of(v.velocity_curve@.len() as int);
    let tv = thin(v.velocity_curve@, s);
    let td = thin(v.distance_curve@, s);
    &&& d.t@ == Seq::new(tv.len(), |j: int| tv[j].0)
    &&& d.velocity@ == Seq::new(tv.len(), |j: int| tv[j].1)
    &&& d.distance@ == Seq::new(td.len(), |j: int| td[j].1)
    &&& d.max_velocity == v.max_velocity
    &&& d.time_to_max_velocity == v.time_to_max_velocity
    &&& d.scale_factor == v.scale_factor
    &&& d.computed_splits@ == splits_spec(v.distance_curve@, distance)
}

impl SprintAnalysisResult {
    /// The boundary detector's outcome.
    pub fn detection(&self) -> (r: DetectionResult)
        ensures
            r.fwd_dur == self.fwd_dur,
            r.bwd_dur == self.bwd_dur,
            r.final_dur == self.final_dur,
            r.gap == self.gap,
            r.decision == self.decision,
            r.sprint_level == self.plot_data.sprint_level,
            r.threshold == self.plot_data.threshold,
    {
        DetectionResult {
            fwd_dur: self.fwd_dur,
            bwd_dur: self.bwd_dur,
            final_dur: self.final_dur,
            gap: self.gap,
            decision: self.decision,
            sprint_level: self.plot_data.sprint_level,
            threshold: self.plot_data.threshold,
        }
    }
}

/// `res` is the analysis of `sprint` for the given sprint start and scan results.
pub open spec fn analysis_matches_at(
    sprint: ParsedSprint,
    res: SprintAnalysisResult,
    start: int,
    fwd: int,
    bwd: int,
) -> bool {
    let a = sprint.accel@;
    let ts = accel_times(a);
    let rolling = rolling_of(a);
    let level = sprint_level_spec(ts, rolling) as u64;
    let search_start = start + min_sprint_time_spec(sprint.distance);
    let fin = decide_spec(fwd, bwd).0;
    let plot = res.plot_data;
    &&& start_time_ok(ts, rolling, start)
    &&& forward_time_ok(ts, rolling, level, search_start, sustain_of(a), fwd)
    &&& backward_time_ok(ts, rolling, level, bwd)
    &&& res.index == sprint.index
    &&& res.date == sprint.date
    &&& res.distance == sprint.distance
    &&& res.fwd_dur == fwd - start
    &&& res.bwd_dur == bwd - start
    &&& res.final_dur == fin - start
    &&& res.gap == decide_spec(fwd, bwd).2
    &&& res.decision == decide_spec(fwd, bwd).1
    &&& plot.t@ == Seq::new(a.len(), |i: int| (ts[i] - start) as i64)
    &&& plot.rolling@ == rolling
    &&& plot.raw_mag@ == mags_of(a)
    &&& plot.sprint_level == level
    &&& plot.threshold == level * 9 / 10
    &&& plot.fwd_time == fwd - start
    &&& plot.bwd_time == bwd - start
    &&& plot.final_time == fin - start
    &&& res.piecewise_fit == crate::piecewise::fit_spec(
        plot.t@,
        rolling,
        fit_stride_spec(a.len() as int, span_of(a)),
        sprint.distance,
    )
    &&& (res.gyro_data is None <==> sprint.gyro@.len() < MIN_GYRO_SAMPLES)
    &&& (res.gyro_data matches Some(g) ==> gyro_matches(g, sprint.gyro@, start))
    &&& (res.velocity_data is None <==> velocity_rejected(a, start, fin, sprint.distance as int))
    &&& (res.velocity_data matches Some(vd) ==> exists|v: VelocityResult|
        velocity_matches(v, a, start, fin, sprint.distance as int) && #[trigger] velocity_data_matches(
            vd,
            v,
            sprint.distance as int,
        ))
}

/// `res` is the analysis of `sprint`.
pub open spec fn analysis_matches(sprint: ParsedSprint, res: SprintAnalysisResult) -> bool {
    exists|start: int, fwd: int, bwd: int| #[trigger] analysis_matches_at(sprint, res, start, fwd, bwd)
}

proof fn lemma_sums_bound(v: Seq<i64>, k: int)
    requires
        0 <= k <= v.len(),
        forall|i: int| 0 <= i < v.len() ==> -MAX_COMPONENT <= #[trigger] v[i] <= MAX_COMPONENT,
    ensures
        -k * MAX_COMPONENT <= sum_of(v, k) <= k * MAX_COMPONENT,
        0 <= sum_sq_of(v, k) <= k * (MAX_COMPONENT * MAX_COMPONENT),
    decreases k,
{
    if k > 0 {
        lemma_sums_bound(v, k - 1);
        let x = v[k - 1];
        assert(0 <= x * x <= MAX_COMPONENT * MAX_COMPONENT) by (nonlinear_arith)
            requires
                -MAX_COMPONENT <= x <= MAX_COMPONENT,
        ;
    }
}

/// The variance of `v` times the square of its length.
fn axis_spread(v: &Vec<i64>) -> (r: i128)
    requires
        v@.len() <= MAX_SAMPLES,
        forall|i: int| 0 <= i < v@.len() ==> -MAX_COMPONENT <= #[trigger] v@[i] <= MAX_COMPONENT,
    ensures
        r == spread(v@),
{
    let n = v.len();
    let mut sum: i128 = 0;
    let mut sum_sq: i128 = 0;
    let mut k: usize = 0;
    while k < n
        invariant
            k <= n,
            n == v@.len(),
            n <= MAX_SAMPLES,
            forall|i: int| 0 <= i < v@.len() ==> -MAX_COMPONENT <= #[trigger] v@[i] <= MAX_COMPONENT,
            sum == sum_of(v@, k as int),
            sum_sq == sum_sq_of(v@, k as int),
        decreases n - k,
    {
        proof {
            lemma_sums_bound(v@, k + 1);
            assert(sum_sq_of(v@, k + 1) <= 10_000_000_000_000_000_000_000_000int) by (nonlinear_arith)
                requires
                    sum_sq_of(v@, k + 1) <= (k + 1) * 1_000_000_000_000_000_000int,
                    k + 1 <= 10_000_000int,
            ;
            assert((k + 1) * MAX_COMPONENT <= MAX_SAMPLES * MAX_COMPONENT) by (nonlinear_arith)
                requires
                    k + 1 <= MAX_SAMPLES,
            ;
        }
        assert(sum_sq_of(v@, k + 1) == sum_sq_of(v@, k as int) + v@[k as int] * v@[k as int]);
        assert(sum_of(v@, k + 1) == sum_of(v@, k as int) + v@[k as int]);
        let x = v[k] as i128;
        assert((x as int) * (x as int) <= 1_000_000_000_000_000_000int) by (nonlinear_arith)
            requires
                -1_000_000_000int <= x <= 1_000_000_000int,
        ;
        sum = sum + x;
        sum_sq = sum_sq + x * x;
        k = k + 1;
    }
    proof {
        lemma_sums_bound(v@, n as int);
        let s = sum as int;
        let q = sum_sq as int;
        assert(n * q <= MAX_SAMPLES * (MAX_SAMPLES * (MAX_COMPONENT * MAX_COMPONENT))) by (nonlinear_arith)
            requires
                0 <= n <= MAX_SAMPLES,
                0 <= q <= n * (MAX_COMPONENT * MAX_COMPONENT),
        ;
        assert(0 <= n * q) by (nonlinear_arith)
            requires
                0 <= n,
                0 <= q,
        ;
        assert(0 <= s * s <= 100_000_000_000_000_000_000_000_000_000_000int) by (nonlinear_arith)
            requires
                -(n * 1_000_000_000int) <= s <= n * 1_000_000_000int,
                0 <= n <= 10_000_000int,
        ;
        assert(n * q <= 100_000_000_000_000_000_000_000_000_000_000int) by (nonlinear_arith)
            requires
                0 <= n <= 10_000_000int,
                0 <= q <= n * 1_000_000_000_000_000_000int,
        ;
    }
    (n as i128) * sum_sq - sum * sum
}

/// Gyroscope summary with times from `sprint_start`; none with fewer than
/// `MIN_GYRO_SAMPLES` samples.
pub fn build_gyro_data(gyro: &Vec<GyroscopeSample>, sprint_start: i64) -> (r: Option<GyroData>)
    requires
        crate::types::gyro_trace_ok(gyro@),
        0 <= sprint_start <= MAX_TIME,
    ensures
        r is None <==> gyro@.len() < MIN_GYRO_SAMPLES,
        r matches Some(d) ==> gyro_matches(d, gyro@, sprint_start as int),
{
    let n = gyro.len();
    if n < MIN_GYRO_SAMPLES {
        return None;
    }
    let mut t: Vec<i64> = Vec::new();
    let mut x: Vec<i64> = Vec::new();
    let mut y: Vec<i64> = Vec::new();
    let mut z: Vec<i64> = Vec::new();
    let mut k: usize = 0;
    while k < n
        invariant
            k <= n,
            n == gyro@.len(),
            crate::types::gyro_trace_ok(gyro@),
            0 <= sprint_start <= MAX_TIME,
            t@.len() == k,
            x@.len() == k,
            y@.len() == k,
            z@.len() == k,
            forall|i: int| 0 <= i < k ==> #[trigger] t@[i] == (gyro@[i].timestamp - sprint_start) as i64,
            forall|i: int| 0 <= i < k ==> #[trigger] x@[i] == gyro@[i].x,
            forall|i: int| 0 <= i < k ==> #[trigger] y@[i] == gyro@[i].y,
            forall|i: int| 0 <= i < k ==> #[trigger] z@[i] == gyro@[i].z,
        decreases n - k,
    {
        let g = gyro[k];
        assert(gyro@[k as int].in_range());
        t.push(g.timestamp - sprint_start);
        x.push(g.x);
        y.push(g.y);
        z.push(g.z);
        k = k + 1;
    }
    assert(t@ =~= Seq::new(gyro@.len(), |i: int| (gyro@[i].timestamp - sprint_start) as i64));
    assert(x@ =~= Seq::new(gyro@.len(), |i: int| gyro@[i].x));
    assert(y@ =~= Seq::new(gyro@.len(), |i: int| gyro@[i].y));
    assert(z@ =~= Seq::new(gyro@.len(), |i: int| gyro@[i].z));
    assert forall|i: int| 0 <= i < x@.len() implies -MAX_COMPONENT <= #[trigger] x@[i] <= MAX_COMPONENT by {
        assert(gyro@[i].in_range());
    }
    assert forall|i: int| 0 <= i < y@.len() implies -MAX_COMPONENT <= #[trigger] y@[i] <= MAX_COMPONENT by {
        assert(gyro@[i].in_range());
    }
    assert forall|i: int| 0 <= i < z@.len() implies -MAX_COMPONENT <= #[trigger] z@[i] <= MAX_COMPONENT by {
        assert(gyro@[i].in_range());
    }
    let vx = axis_spread(&x);
    let vy = axis_spread(&y);
    let vz = axis_spread(&z);
    let dominant_axis = if vx >= vy && vx >= vz {
        Axis::X
    } else if vy >= vz {
        Axis::Y
    } else {
        Axis::Z
    };
    Some(GyroData { t, x, y, z, dominant_axis })
}

/// Every `stride`-th point of `c`, from the first.
fn thin_curve(c: &Vec<(i64, i64)>, stride: usize) -> (r: Vec<(i64, i64)>)
    requires
        1 <= stride,
        c@.len() <= MAX_SAMPLES,
        stride <= MAX_SAMPLES,
    ensures
        r@ == thin(c@, stride as int),
{
    let n = c.len();
    let mut out: Vec<(i64, i64)> = Vec::new();
    let mut i: usize = 0;
    assert(out@.len() * stride == 0) by (nonlinear_arith)
        requires
            out@.len() == 0,
    ;
    while i < n
        invariant
            n == c@.len(),
            n <= MAX_SAMPLES,
            1 <= stride <= MAX_SAMPLES,
            i == out@.len() * stride,
            out@.len() > 0 ==> (out@.len() - 1) * stride < n,
            out@.len() == 0 ==> i == 0,
            i <= n + stride,
            forall|j: int| 0 <= j < out@.len() ==> #[trigger] out@[j] == c@[j * stride],
        decreases n + stride - i,
    {
        out.push(c[i]);
        proof {
            assert((out@.len() - 1) * stride == i);
            assert(out@.len() * stride == i + stride) by (nonlinear_arith)
                requires
                    (out@.len() - 1) * stride == i,
            ;
        }
        i = i + stride;
    }
    proof {
        let k = out@.len() as int;
        let s = stride as int;
        if k > 0 {
            assert((k - 1) * s == k * s - s) by (nonlinear_arith);
            vstd::arithmetic::div_mod::lemma_fundamental_div_mod_converse(
                n + s - 1,
                s,
                k,
                n + s - 1 - k * s,
            );
        } else {
            vstd::arithmetic::div_mod::lemma_fundamental_div_mod_converse(n + s - 1, s, 0, n + s - 1);
        }
    }
    assert(out@ =~= thin(c@, stride as int));
    out
}

/// The velocity profile thinned to about `PLOT_POINTS` points, with the splits
/// of its distance curve.
pub fn velocity_data_from(v: &VelocityResult, distance: u32) -> (d: VelocityData)
    requires
        crate::splits::curve_ok(v.distance_curve@),
        v.velocity_curve@.len() == v.distance_curve@.len(),
        v.velocity_curve@.len() <= MAX_SAMPLES,
        distance <= crate::splits::MAX_DISTANCE_M,
    ensures
        velocity_data_matches(d, *v, distance as int),
{
    let len = v.velocity_curve.len();
    let stride: usize = if len / PLOT_POINTS < 1 {
        1
    } else {
        len / PLOT_POINTS
    };
    let tv = thin_curve(&v.velocity_curve, stride);
    let td = thin_curve(&v.distance_curve, stride);
    let mut t: Vec<i64> = Vec::new();
    let mut vel: Vec<i64> = Vec::new();
    let mut k: usize = 0;
    while k < tv.len()
        invariant
            k <= tv@.len(),
            t@.len() == k,
            vel@.len() == k,
            forall|j: int| 0 <= j < k ==> #[trigger] t@[j] == tv@[j].0,
            forall|j: int| 0 <= j < k ==> #[trigger] vel@[j] == tv@[j].1,
        decreases tv@.len() - k,
    {
        t.push(tv[k].0);
        vel.push(tv[k].1);
        k = k + 1;
    }
    let mut dist: Vec<i64> = Vec::new();
    let mut k: usize = 0;
    while k < td.len()
        invariant
            k <= td@.len(),
            dist@.len() == k,
            forall|j: int| 0 <= j < k ==> #[trigger] dist@[j] == td@[j].1,
        decreases td@.len() - k,
    {
        dist.push(td[k].1);
        k = k + 1;
    }
    assert(t@ =~= Seq::new(tv@.len(), |j: int| tv@[j].0));
    assert(vel@ =~= Seq::new(tv@.len(), |j: int| tv@[j].1));
    assert(dist@ =~= Seq::new(td@.len(), |j: int| td@[j].1));
    let computed_splits = calculate_splits(&v.distance_curve, distance);
    VelocityData {
        t,
        velocity: vel,
        distance: dist,
        max_velocity: v.max_velocity,
        time_to_max_velocity: v.time_to_max_velocity,
        scale_factor: v.scale_factor,
        computed_splits,
    }
}

/// The thinned velocity profile of the sprint from `start` to `end`, with its splits.
fn velocity_profile(accel: &Vec<AccelerationSample>, start: i64, end: i64, distance: u32) -> (r: Option<VelocityData>)
    requires
        crate::types::accel_trace_ok(accel@),
        0 <= start <= MAX_TIME,
        0 <= end <= MAX_TIME,
        distance <= crate::splits::MAX_DISTANCE_M,
    ensures
        r is None <==> velocity_rejected(accel@, start as int, end as int, distance as int),
        r is Some ==> exists|v: VelocityResult|
            velocity_matches(v, accel@, start as int, end as int, distance as int)
                && #[trigger] velocity_data_matches(r->Some_0, v, distance as int),
{
    match calculate_velocity(accel, start, end, distance) {
        Some(v) => {
            let d = velocity_data_from(&v, distance);
            assert(velocity_matches(v, accel@, start as int, end as int, distance as int)
                && velocity_data_matches(d, v, distance as int));
            let r = Some(d);
            assert(velocity_data_matches(r->Some_0, v, distance as int));
            assert(exists|w: VelocityResult|
                velocity_matches(w, accel@, start as int, end as int, distance as int)
                    && #[trigger] velocity_data_matches(r->Some_0, w, distance as int));
            r
        },
        None => None,
    }
}

/// Step between the samples that the piecewise fit uses.
fn fit_stride(n: usize, span: i64) -> (r: usize)
    requires
        1 <= n <= MAX_SAMPLES,
    ensures
        r == fit_stride_spec(n as int, span as int),
        r >= 1,
{
    proof {
        assert(0 <= 2 * (FIT_STEP_US as int) * (n as int) <= 2_000_000_000_000) by (nonlinear_arith)
            requires
                0 <= n <= 10_000_000int,
        ;
        if span > 0 {
            let x = 2 * (FIT_STEP_US as int) * (n as int) + span;
            vstd::arithmetic::div_mod::lemma_div_pos_is_pos(x, 2 * (span as int));
            vstd::arithmetic::div_mod::lemma_div_is_ordered_by_denominator(x, 1, 2 * (span as int));
        }
    }
    let c: i128 = if span <= 0 {
        n as i128
    } else {
        (2 * (FIT_STEP_US as i128) * (n as i128) + (span as i128)) / (2 * (span as i128))
    };
    if c < 1 {
        1
    } else if c > n as i128 {
        n
    } else {
        c as usize
    }
}

/// Samples in half a second of a trace of `n` samples over `span` microseconds.
fn sustain_samples(n: usize, span: i64) -> (r: usize)
    requires
        n <= MAX_SAMPLES,
    ensures
        r == sustain_spec(n as int, span as int),
{
    proof {
        assert(0 <= (SUSTAIN_US as int) * (n as int) <= 5_000_000_000_000) by (nonlinear_arith)
            requires
                0 <= n <= 10_000_000int,
        ;
        if span > 0 {
            let x = (SUSTAIN_US as int) * (n as int) + span - 1;
            vstd::arithmetic::div_mod::lemma_div_pos_is_pos(x, span as int);
            vstd::arithmetic::div_mod::lemma_div_is_ordered_by_denominator(x, 1, span as int);
        }
    }
    let c: i128 = if span <= 0 {
        n as i128
    } else {
        ((SUSTAIN_US as i128) * (n as i128) + (span as i128) - 1) / (span as i128)
    };
    if c < MIN_SUSTAIN as i128 {
        MIN_SUSTAIN
    } else if c > n as i128 {
        n
    } else {
        c as usize
    }
}

/// Analyses one sprint: rolling mean over one second, sprint level and start,
/// forward and backward scans and their reconciliation, gyroscope summary, and
/// the velocity profile with its splits up to the chosen end. Fails only on
/// fewer than `MIN_ACCEL_SAMPLES` accelerometer samples.
#[verifier::rlimit(60)]
pub fn analyze(sprint: &ParsedSprint) -> (r: Result<SprintAnalysisResult, AnalysisError>)
    requires
        sprint.well_formed(),
    ensures
        r is Err <==> sprint.accel@.len() < MIN_ACCEL_SAMPLES,
        r matches Err(e) ==> e == AnalysisError::TooFewSamples,
        r matches Ok(res) ==> analysis_matches(*sprint, res),
{
    let accel = &sprint.accel;
    let ghost a = accel@;
    let n = accel.len();
    if n < MIN_ACCEL_SAMPLES {
        return Err(AnalysisError::TooFewSamples);
    }
    let mut ts: Vec<i64> = Vec::new();
    let mut mags: Vec<u64> = Vec::new();
    let mut k: usize = 0;
    while k < n
        invariant
            k <= n,
            n == a.len(),
            accel@ == a,
            crate::types::accel_trace_ok(a),
            ts@.len() == k,
            mags@.len() == k,
            forall|j: int| 0 <= j < k ==> #[trigger] ts@[j] == a[j].timestamp,
            forall|j: int| 0 <= j < k ==> #[trigger] mags@[j] == isqrt_spec(a[j].sum_sq()) as u64,
            forall|j: int| 0 <= j < k ==> #[trigger] mags@[j] < 4_294_967_296,
        decreases n - k,
    {
        assert(a[k as int].in_range());
        let m = crate::types::magnitude(&accel[k]);
        ts.push(accel[k].timestamp);
        mags.push(m);
        k = k + 1;
    }
    assert(ts@ =~= accel_times(a));
    assert(mags@ =~= mags_of(a));
    assert forall|i: int| 0 <= i < ts@.len() implies 0 <= #[trigger] ts@[i] <= MAX_TIME by {
        assert(a[i].in_range());
    }
    assert(a[0].in_range() && a[n - 1].in_range());
    let span: i64 = ts[n - 1] - ts[0];
    let window = window_samples(ROLLING_WINDOW_US, n, span);
    let rolling = rolling_mean(&mags, window);
    assert(rolling@ =~= rolling_of(a));
    let level = find_sprint_level(&ts, &rolling);
    let sprint_start: i64 = match sprint_start_index(&rolling) {
        Some(i) => {
            assert(starts_sprint(rolling@[i as int]));
            ts[i]
        },
        None => ts[0],
    };
    assert(start_time_ok(ts@, rolling@, sprint_start as int));
    let min_time = min_sprint_time(sprint.distance);
    let sustain = sustain_samples(n, span);
    let search_start: i64 = sprint_start + min_time;
    let fwd: i64 = match detect_forward(&ts, &rolling, level, search_start, sustain) {
        Some(i) => {
            assert(forward_hit(ts@, rolling@, level, search_start as int, sustain as int, i as int));
            ts[i]
        },
        None => ts[n - 1],
    };
    assert(forward_time_ok(ts@, rolling@, level, search_start as int, sustain as int, fwd as int));
    let bwd: i64 = match detect_backward(&rolling, level) {
        Some(i) => {
            assert(at_or_above(rolling@[i as int], level));
            ts[i]
        },
        None => ts[0],
    };
    assert(backward_time_ok(ts@, rolling@, level, bwd as int));
    let (final_time, decision, gap) = decide(fwd, bwd);
    let mut t_rel: Vec<i64> = Vec::new();
    let mut k: usize = 0;
    while k < n
        invariant
            k <= n,
            n == ts@.len(),
            forall|i: int| 0 <= i < ts@.len() ==> 0 <= #[trigger] ts@[i] <= MAX_TIME,
            0 <= sprint_start <= MAX_TIME,
            t_rel@.len() == k,
            forall|j: int| 0 <= j < k ==> #[trigger] t_rel@[j] == (ts@[j] - sprint_start) as i64,
        decreases n - k,
    {
        t_rel.push(ts[k] - sprint_start);
        k = k + 1;
    }
    assert(t_rel@ =~= Seq::new(a.len(), |i: int| (accel_times(a)[i] - sprint_start) as i64));
    assert forall|i: int| 0 <= i < t_rel@.len() implies crate::numeric::abs(#[trigger] t_rel@[i] as int) <= MAX_TIME by {
        assert(0 <= ts@[i] <= MAX_TIME);
    }
    let stride = fit_stride(n, span);
    let piecewise_fit = crate::piecewise::fit_piecewise(&t_rel, &rolling, stride, sprint.distance);
    let gyro_data = build_gyro_data(&sprint.gyro, sprint_start);
    let velocity_data = velocity_profile(accel, sprint_start, final_time, sprint.distance);
    let threshold: u64 = level * 9 / 10;
    let res = SprintAnalysisResult {
        index: sprint.index,
        date: sprint.date.clone(),
        distance: sprint.distance,
        fwd_dur: fwd - sprint_start,
        bwd_dur: bwd - sprint_start,
        final_dur: final_time - sprint_start,
        gap,
        decision,
        plot_data: PlotData {
            t: t_rel,
            rolling,
            raw_mag: mags,
            sprint_level: level,
            threshold,
            fwd_time: fwd - sprint_start,
            bwd_time: bwd - sprint_start,
            final_time: final_time - sprint_start,
        },
        gyro_data,
        piecewise_fit,
        velocity_data,
    };
    assert(accel_times(a) == ts@);
    assert(rolling_of(a) == rolling@);
    assert(sustain_of(a) == sustain as int);
    assert(sprint_level_spec(accel_times(a), rolling_of(a)) == level as int);
    assert(analysis_matches_at(*sprint, res, sprint_start as int, fwd as int, bwd as int));
    Ok(res)
}

/// The sprints among the first `k` that have enough samples to be analysed, in order.
pub open spec fn analysable_upto(sprints: Seq<ParsedSprint>, k: int) -> Seq<ParsedSprint>
    decreases k,
{
    if k <= 0 {
        Seq::empty()
    } else {
        let prev = analysable_upto(sprints, k - 1);
        if sprints[k - 1].accel@.len() >= MIN_ACCEL_SAMPLES {
            prev.push(sprints[k - 1])
        } else {
            prev
        }
    }
}

/// Analyses each sprint in order. A sprint that fails is left out and the
/// others go on: the results are those of the analysable sprints, in order.
pub fn analyze_all(sprints: &Vec<ParsedSprint>) -> (r: Vec<SprintAnalysisResult>)
    requires
        forall|i: int| 0 <= i < sprints@.len() ==> (#[trigger] sprints@[i]).well_formed(),
    ensures
        r@.len() == analysable_upto(sprints@, sprints@.len() as int).len(),
        forall|j: int| 0 <= j < r@.len() ==> analysis_matches(
            #[trigger] analysable_upto(sprints@, sprints@.len() as int)[j],
            r@[j],
        ),
{
    let mut results: Vec<SprintAnalysisResult> = Vec::new();
    let mut k: usize = 0;
    while k < sprints.len()
        invariant
            k <= sprints@.len(),
            forall|i: int| 0 <= i < sprints@.len() ==> (#[trigger] sprints@[i]).well_formed(),
            results@.len() == analysable_upto(sprints@, k as int).len(),
            forall|j: int| 0 <= j < results@.len() ==> analysis_matches(
                #[trigger] analysable_upto(sprints@, k as int)[j],
                results@[j],
            ),
        decreases sprints@.len() - k,
    {
        let ghost before = analysable_upto(sprints@, k as int);
        assert(sprints@[k as int].well_formed());
        match analyze(&sprints[k]) {
            Ok(res) => {
                results.push(res);
                assert(analysable_upto(sprints@, k + 1) == before.push(sprints@[k as int]));
                assert forall|j: int| 0 <= j < results@.len() implies analysis_matches(
                    #[trigger] analysable_upto(sprints@, k + 1)[j],
                    results@[j],
                ) by {
                    if j < before.len() {
                        assert(analysable_upto(sprints@, k + 1)[j] == before[j]);
                    }
                }
            },
            Err(_) => {
                assert(analysable_upto(sprints@, k + 1) == before);
            },
        }
        k = k + 1;
    }
    results
}

} // verus!
