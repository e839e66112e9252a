//! Kalman filter fusing forward acceleration with a reference speed (such as
//! GPS Doppler speed), followed by a Rauch-Tung-Striebel backward smoother.
//! Times in microseconds, acceleration in micrometres per second squared,
//! velocity in micrometres per second, variances in (micrometres per second)^2.
use vstd::prelude::*;
use crate::numeric::{abs, tdiv, div_trunc, lemma_tdiv_bound};

verus! {

/// Most acceleration samples in one smoothing pass.
pub const MAX_KALMAN_SAMPLES: usize = 100_000;

/// Largest acceleration magnitude accepted (about 20 g).
pub const MAX_ACCEL: i64 = 200_000_000;

/// Largest reference speed magnitude accepted (1 km/s).
pub const MAX_SPEED: i64 = 1_000_000_000;

/// Largest process noise accepted per step.
pub const MAX_PROCESS_NOISE: i64 = 1_000_000_000_000;

/// Largest reference noise accepted.
pub const MAX_NOISE: i64 = 1_000_000_000_000_000_000;

/// Floor of the reference noise (0.01 (m/s)^2).
pub const MIN_NOISE: i64 = 10_000_000_000;

/// Variance of the initial velocity estimate (1 (m/s)^2).
pub const INITIAL_VARIANCE: i128 = 1_000_000_000_000;

/// Time step assumed at the first sample (100 Hz).
pub const FIRST_DT_US: i64 = 10_000;

/// Steps at or below this length are skipped as stale.
pub const MIN_DT_US: i64 = 1_000;

/// Steps at or above this length are skipped as gaps.
pub const MAX_DT_US: i64 = 500_000;

/// Largest velocity change in one prediction.
pub const MAX_STEP_DV: i64 = 100_000_000;

/// Noise levels of the filter.
#[derive(Clone, Copy, Debug, PartialEq, Eq)]
pub struct KalmanConfig {
    pub process_noise: i64,
    pub measurement_noise: i64,
}

impl Default for KalmanConfig {
    /// Balanced noise levels: 0.15 and 0.4 (m/s)^2.
    fn default() -> (r: Self)
        ensures
            r.process_noise == 150_000_000_000,
            r.measurement_noise == 400_000_000_000,
    {
        KalmanConfig { process_noise: 150_000_000_000, measurement_noise: 400_000_000_000 }
    }
}

impl KalmanConfig {
    /// Noise levels that trust the reference speed more: 0.2 and 0.3 (m/s)^2.
    pub fn gps_optimized() -> (r: Self)
        ensures
            r.process_noise == 200_000_000_000,
            r.measurement_noise == 300_000_000_000,
    {
        KalmanConfig { process_noise: 200_000_000_000, measurement_noise: 300_000_000_000 }
    }
}

/// One reference speed: its time, the speed, and its variance.
#[derive(Clone, Copy, Debug, PartialEq, Eq)]
pub struct GpsSpeedSample {
    pub timestamp: i64,
    pub speed: i64,
    pub noise: i64,
}

/// Estimate of the filter: velocity, its variance, and the time of the last prediction.
#[derive(Clone, Copy, Debug, PartialEq, Eq)]
pub struct KalmanState {
    pub velocity: i64,
    pub error_covariance: i128,
    pub last_prediction_time: Option<i64>,
}

/// The filter's state after one sample: filtered and predicted estimates.
#[derive(Clone, Copy, Debug, PartialEq, Eq)]
pub struct FilterSnapshot {
    pub velocity: i64,
    pub covariance: i128,
    pub predicted_velocity: i64,
    pub predicted_covariance: i128,
}

/// The prediction step from state `s` for acceleration `a` at time `t`: the
/// first sample assumes `FIRST_DT_US`; a step at most `MIN_DT_US` or at least
/// `MAX_DT_US` long only moves the prediction time.
pub open spec fn predict_spec(s: KalmanState, a: int, t: int, q: int) -> KalmanState {
    let dt = match s.last_prediction_time {
        Some(l) => t - l,
        None => FIRST_DT_US as int,
    };
    if s.last_prediction_time is Some && (dt <= MIN_DT_US || dt >= MAX_DT_US) {
        KalmanState { last_prediction_time: Some(t as i64), ..s }
    } else {
        KalmanState {
            velocity: (s.velocity + tdiv(a * dt, 1_000_000)) as i64,
            error_covariance: (s.error_covariance + q) as i128,
            last_prediction_time: Some(t as i64),
        }
    }
}

/// The update step of state `s` with a measured speed and its noise, the noise
/// floored at `MIN_NOISE`.
pub open spec fn update_spec(s: KalmanState, meas: int, noise: int) -> KalmanState {
    let r = if noise < MIN_NOISE {
        MIN_NOISE as int
    } else {
        noise
    };
    let p = s.error_covariance as int;
    KalmanState {
        velocity: (s.velocity + tdiv(p * (meas - s.velocity), p + r)) as i64,
        error_covariance: (p * r / (p + r)) as i128,
        last_prediction_time: s.last_prediction_time,
    }
}

/// Applies in order every reference sample from index `g` on whose time is at
/// most `t`; returns the state and the index of the first one not applied.
pub open spec fn drain_spec(gps: Seq<GpsSpeedSample>, t: int, s: KalmanState, g: int) -> (KalmanState, int)
    decreases gps.len() - g,
{
    if g < 0 || g >= gps.len() || gps[g].timestamp > t {
        (s, g)
    } else {
        drain_spec(gps, t, update_spec(s, gps[g].speed as int, gps[g].noise as int), g + 1)
    }
}

pub open spec fn initial_state() -> KalmanState {
    KalmanState { velocity: 0, error_covariance: INITIAL_VARIANCE, last_prediction_time: None }
}

/// The forward pass over the first `k` acceleration samples: final state,
/// reference index, and one snapshot per sample.
pub open spec fn forward_spec(
    accel: Seq<(i64, i64)>,
    gps: Seq<GpsSpeedSample>,
    q: int,
    k: int,
) -> (KalmanState, int, Seq<FilterSnapshot>)
    decreases k,
{
    if k <= 0 {
        (initial_state(), 0, Seq::empty())
    } else {
        let (s, g, snaps) = forward_spec(accel, gps, q, k - 1);
        let (t, a) = accel[k - 1];
        let pred = predict_spec(s, a as int, t as int, q);
        let (upd, g2) = drain_spec(gps, t as int, pred, g);
        (
            upd,
            g2,
            snaps.push(
                FilterSnapshot {
                    velocity: upd.velocity,
                    covariance: upd.error_covariance,
                    predicted_velocity: pred.velocity,
                    predicted_covariance: pred.error_covariance,
                },
            ),
        )
    }
}

/// Smoothed velocity at index `k`: the last filtered velocity at the end, and
/// before it the filtered velocity corrected by the smoother gain
/// `covariance[k] / predicted_covariance[k + 1]` (0 where that variance is 0),
/// never below 0.
pub open spec fn smoothed_spec(snaps: Seq<FilterSnapshot>, k: int) -> int
    decreases snaps.len() - k,
{
    if k < 0 || k >= snaps.len() - 1 {
        snaps[snaps.len() - 1].velocity as int
    } else {
        let f = snaps[k];
        let next = snaps[k + 1];
        let later = smoothed_spec(snaps, k + 1);
        let s = if next.predicted_covariance > 0 {
            f.velocity + tdiv(f.covariance * (later - next.predicted_velocity), next.predicted_covariance as int)
        } else {
            f.velocity as int
        };
        if s < 0 {
            0
        } else {
            s
        }
    }
}

/// Bound on the velocity after `k` predictions.
pub open spec fn velocity_bound(k: int) -> int {
    MAX_SPEED + k * MAX_STEP_DV
}

/// Bound on the variance after `k` predictions.
pub open spec fn variance_bound(k: int) -> int {
    INITIAL_VARIANCE + k * MAX_PROCESS_NOISE
}

proof fn lemma_bounds_grow(k: int)
    requires
        0 <= k <= MAX_KALMAN_SAMPLES,
    ensures
        velocity_bound(k) + MAX_STEP_DV == velocity_bound(k + 1),
        variance_bound(k) + MAX_PROCESS_NOISE == variance_bound(k + 1),
        velocity_bound(k + 1) <= 10_002_000_000_000,
        variance_bound(k + 1) <= 100_002_000_000_000_000,
        MAX_SPEED <= velocity_bound(k),
        INITIAL_VARIANCE <= variance_bound(k),
{
    assert(k * MAX_STEP_DV + MAX_STEP_DV == (k + 1) * MAX_STEP_DV) by (nonlinear_arith);
    assert(k * MAX_PROCESS_NOISE + MAX_PROCESS_NOISE == (k + 1) * MAX_PROCESS_NOISE) by (nonlinear_arith);
    assert((k + 1) * MAX_STEP_DV <= (MAX_KALMAN_SAMPLES + 1) * MAX_STEP_DV) by (nonlinear_arith)
        requires
            k + 1 <= MAX_KALMAN_SAMPLES + 1,
    ;
    assert((k + 1) * MAX_PROCESS_NOISE <= (MAX_KALMAN_SAMPLES + 1) * MAX_PROCESS_NOISE) by (nonlinear_arith)
        requires
            k + 1 <= MAX_KALMAN_SAMPLES + 1,
    ;
    assert(0 <= k * MAX_STEP_DV) by (nonlinear_arith)
        requires
            0 <= k,
    ;
    assert(0 <= k * MAX_PROCESS_NOISE) by (nonlinear_arith)
        requires
            0 <= k,
    ;
}

/// A weighted step `tdiv(w * x, d)` with `0 <= w <= d` stays between 0 and `x`.
proof fn lemma_partial_step(w: int, x: int, d: int)
    requires
        0 <= w <= d,
        d > 0,
    ensures
        x >= 0 ==> 0 <= tdiv(w * x, d) <= x,
        x < 0 ==> x <= tdiv(w * x, d) <= 0,
{
    let a = w * x;
    lemma_tdiv_bound(a, d);
    let q = tdiv(a, d);
    assert(abs(a) <= d * abs(x)) by (nonlinear_arith)
        requires
            a == w * x,
            0 <= w <= d,
    ;
    assert(abs(q) <= abs(x)) by (nonlinear_arith)
        requires
            d * abs(q) <= abs(a),
            abs(a) <= d * abs(x),
            d > 0,
    ;
    if x >= 0 {
        assert(a >= 0) by (nonlinear_arith)
            requires
                a == w * x,
                w >= 0,
                x >= 0,
        ;
    } else {
        assert(a <= 0) by (nonlinear_arith)
            requires
                a == w * x,
                w >= 0,
                x < 0,
        ;
        if a < 0 {
            assert((-a) / d >= 0) by {
                vstd::arithmetic::div_mod::lemma_div_pos_is_pos(-a, d);
            }
        }
    }
}

impl KalmanState {
    /// The initial estimate: at rest, variance `INITIAL_VARIANCE`.
    pub fn new() -> (r: Self)
        ensures
            r == initial_state(),
    {
        KalmanState { velocity: 0, error_covariance: INITIAL_VARIANCE, last_prediction_time: None }
    }

    /// Prediction step: integrates acceleration `a` over the time since the
    /// last prediction and adds `q` to the variance (see `predict_spec`).
    pub fn predict(&mut self, a: i64, t: i64, q: i64)
        requires
            -MAX_ACCEL <= a <= MAX_ACCEL,
            0 <= t <= crate::types::MAX_TIME,
            0 <= q <= MAX_PROCESS_NOISE,
            old(self).last_prediction_time matches Some(l) ==> 0 <= l <= crate::types::MAX_TIME,
            abs(old(self).velocity as int) <= 10_000_000_000_000_000,
            0 <= old(self).error_covariance <= 1_000_000_000_000_000_000,
        ensures
            *final(self) == predict_spec(*old(self), a as int, t as int, q as int),
            abs(final(self).velocity - old(self).velocity) <= MAX_STEP_DV,
            final(self).error_covariance == old(self).error_covariance
                || final(self).error_covariance == old(self).error_covariance + q,
            final(self).last_prediction_time == Some(t),
    {
        let dt: i64 = match self.last_prediction_time {
            Some(l) => {
                let d = t - l;
                if d <= MIN_DT_US || d >= MAX_DT_US {
                    self.last_prediction_time = Some(t);
                    return;
                }
                d
            },
            None => FIRST_DT_US,
        };
        proof {
            assert(abs((a as int) * (dt as int)) <= 200_000_000 * 500_000) by (nonlinear_arith)
                requires
                    -200_000_000 <= a <= 200_000_000,
                    0 < dt < 500_000,
            ;
            lemma_tdiv_bound((a as int) * (dt as int), 1_000_000);
        }
        let dv: i128 = div_trunc((a as i128) * (dt as i128), 1_000_000);
        self.last_prediction_time = Some(t);
        self.velocity = self.velocity + dv as i64;
        self.error_covariance = self.error_covariance + q as i128;
    }

    /// Update step with a measured speed and its noise (see `update_spec`):
    /// the velocity moves toward the measurement and the variance shrinks.
    pub fn update_adaptive(&mut self, measured: i64, noise: i64)
        requires
            -MAX_SPEED <= measured <= MAX_SPEED,
            noise <= MAX_NOISE,
            abs(old(self).velocity as int) <= 10_000_000_000_000_000,
            0 <= old(self).error_covariance <= 1_000_000_000_000_000_000,
        ensures
            *final(self) == update_spec(*old(self), measured as int, noise as int),
            abs(final(self).velocity as int) <= abs(old(self).velocity as int)
                || abs(final(self).velocity as int) <= MAX_SPEED,
            0 <= final(self).error_covariance <= old(self).error_covariance,
    {
        let r: i128 = if noise < MIN_NOISE {
            MIN_NOISE as i128
        } else {
            noise as i128
        };
        let p: i128 = self.error_covariance;
        let x: i128 = (measured as i128) - (self.velocity as i128);
        proof {
            lemma_partial_step(p as int, x as int, (p + r) as int);
            assert(abs((p as int) * (x as int)) <= 1_000_000_000_000_000_000 * 20_000_000_000_000_000)
                by (nonlinear_arith)
                requires
                    0 <= p <= 1_000_000_000_000_000_000int,
                    abs(x as int) <= 20_000_000_000_000_000int,
            ;
            assert(0 <= (p as int) * (r as int) <= 1_000_000_000_000_000_000 * 1_000_000_000_000_000_000)
                by (nonlinear_arith)
                requires
                    0 <= p <= 1_000_000_000_000_000_000int,
                    0 < r <= 1_000_000_000_000_000_000int,
            ;
            vstd::arithmetic::div_mod::lemma_div_pos_is_pos((p * r) as int, (p + r) as int);
            vstd::arithmetic::div_mod::lemma_div_is_ordered_by_denominator((p * r) as int, r as int, (p + r) as int);
            vstd::arithmetic::div_mod::lemma_div_multiples_vanish(p as int, r as int);
            vstd::arithmetic::mul::lemma_mul_is_commutative(p as int, r as int);
        }
        let step: i128 = div_trunc(p * x, p + r);
        self.velocity = ((self.velocity as i128) + step) as i64;
        self.error_covariance = (p * r) / (p + r);
    }
}

/// Inputs that the smoother accepts.
pub open spec fn kalman_inputs_ok(accel: Seq<(i64, i64)>, gps: Seq<GpsSpeedSample>, q: int) -> bool {
    &&& accel.len() <= MAX_KALMAN_SAMPLES
    &&& 0 <= q <= MAX_PROCESS_NOISE
    &&& forall|i: int|
        0 <= i < accel.len() ==> 0 <= (#[trigger] accel[i]).0 <= crate::types::MAX_TIME && -MAX_ACCEL
            <= accel[i].1 <= MAX_ACCEL
    &&& forall|i: int|
        0 <= i < gps.len() ==> -MAX_SPEED <= (#[trigger] gps[i]).speed <= MAX_SPEED && gps[i].noise
            <= MAX_NOISE
}

/// Bound on the smoothed velocity `j` steps before the end.
pub open spec fn smoothed_bound(j: int, n: int) -> int {
    (2 * j + 1) * velocity_bound(n)
}

/// Forward Kalman pass over `(timestamp, forward acceleration)` samples, fusing
/// the reference speeds at or before each sample, then the backward smoother.
/// Returns each sample's timestamp with its smoothed velocity.
pub fn process_batch_smoothed(
    accel_samples: &Vec<(i64, i64)>,
    gps_speeds: &Vec<GpsSpeedSample>,
    config: &KalmanConfig,
) -> (r: Vec<(i64, i64)>)
    requires
        kalman_inputs_ok(accel_samples@, gps_speeds@, config.process_noise as int),
    ensures
        r@.len() == accel_samples@.len(),
        forall|k: int| 0 <= k < r@.len() ==> #[trigger] r@[k] == (
            accel_samples@[k].0,
            smoothed_spec(
                forward_spec(accel_samples@, gps_speeds@, config.process_noise as int, accel_samples@.len() as int).2,
                k,
            ) as i64,
        ),
        forall|k: int| 0 <= k < r@.len() ==> abs((#[trigger] r@[k]).1 as int) <= smoothed_bound(
            r@.len() - 1 - k,
            r@.len() as int,
        ),
        forall|k: int| 0 <= k < r@.len() - 1 ==> (#[trigger] r@[k]).1 >= 0,
{
    let n = accel_samples.len();
    let mut out: Vec<(i64, i64)> = Vec::new();
    if n == 0 {
        return out;
    }
    let q = config.process_noise;
    let ghost a = accel_samples@;
    let ghost gs = gps_speeds@;
    let mut state = KalmanState::new();
    let mut snaps: Vec<FilterSnapshot> = Vec::new();
    let mut g: usize = 0;
    let mut k: usize = 0;
    while k < n
        invariant
            k <= n,
            n == a.len(),
            a == accel_samples@,
            gs == gps_speeds@,
            q == config.process_noise,
            kalman_inputs_ok(a, gs, q as int),
            (state, g as int, snaps@) == forward_spec(a, gs, q as int, k as int),
            g <= gs.len(),
            abs(state.velocity as int) <= velocity_bound(k as int),
            0 <= state.error_covariance <= variance_bound(k as int),
            k == 0 ==> state.last_prediction_time is None,
            k > 0 ==> state.last_prediction_time == Some(a[k - 1].0),
            snaps@.len() == k,
            k > 0 ==> snaps@[k - 1].covariance == state.error_covariance,
            forall|j: int| 0 <= j < k ==> abs((#[trigger] snaps@[j]).velocity as int) <= velocity_bound(n as int)
                && abs(snaps@[j].predicted_velocity as int) <= velocity_bound(n as int)
                && 0 <= snaps@[j].covariance <= variance_bound(n as int)
                && 0 <= snaps@[j].predicted_covariance <= variance_bound(n as int),
            forall|j: int| 0 <= j < k - 1 ==> (#[trigger] snaps@[j]).covariance <= snaps@[j + 1].predicted_covariance,
        decreases n - k,
    {
        let (t, acc) = accel_samples[k];
        assert(0 <= a[k as int].0 <= crate::types::MAX_TIME);
        proof {
            lemma_bounds_grow(k as int);
            lemma_bounds_grow(n as int - 1);
            assert(velocity_bound(k + 1) <= velocity_bound(n as int)) by (nonlinear_arith)
                requires
                    k + 1 <= n,
                    velocity_bound(k + 1) == MAX_SPEED + (k + 1) * MAX_STEP_DV,
                    velocity_bound(n as int) == MAX_SPEED + n * MAX_STEP_DV,
            ;
            assert(variance_bound(k + 1) <= variance_bound(n as int)) by (nonlinear_arith)
                requires
                    k + 1 <= n,
                    variance_bound(k + 1) == INITIAL_VARIANCE + (k + 1) * MAX_PROCESS_NOISE,
                    variance_bound(n as int) == INITIAL_VARIANCE + n * MAX_PROCESS_NOISE,
            ;
        }
        let ghost before = state;
        state.predict(acc, t, q);
        let pred = state;
        assert(pred == predict_spec(before, acc as int, t as int, q as int));
        let ghost g0 = g;
        while g < gps_speeds.len() && gps_speeds[g].timestamp <= t
            invariant
                g <= gs.len(),
                gs == gps_speeds@,
                kalman_inputs_ok(a, gs, q as int),
                k < n,
                drain_spec(gs, t as int, pred, g0 as int) == drain_spec(gs, t as int, state, g as int),
                abs(state.velocity as int) <= velocity_bound(k + 1),
                0 <= state.error_covariance <= pred.error_covariance,
                pred.error_covariance <= variance_bound(k + 1),
                velocity_bound(k + 1) <= 10_002_000_000_000,
                state.last_prediction_time == Some(t),
            decreases gs.len() - g,
        {
            let sample = gps_speeds[g];
            assert(-MAX_SPEED <= gs[g as int].speed <= MAX_SPEED);
            state.update_adaptive(sample.speed, sample.noise);
            g = g + 1;
        }
        snaps.push(
            FilterSnapshot {
                velocity: state.velocity,
                covariance: state.error_covariance,
                predicted_velocity: pred.velocity,
                predicted_covariance: pred.error_covariance,
            },
        );
        k = k + 1;
    }
    let ghost fs = snaps@;
    assert(fs == forward_spec(a, gs, q as int, n as int).2);
    let mut sm: Vec<i128> = Vec::new();
    let mut z: usize = 0;
    while z < n
        invariant
            z <= n,
            sm@.len() == z,
        decreases n - z,
    {
        sm.push(0);
        z = z + 1;
    }
    proof {
        lemma_bounds_grow(n as int - 1);
    }
    sm.set(n - 1, snaps[n - 1].velocity as i128);
    assert(smoothed_bound(0, n as int) == 1 * velocity_bound(n as int));
    assert(1 * velocity_bound(n as int) == velocity_bound(n as int));
    let ghost last = snaps@[n as int - 1];
    assert(abs(last.velocity as int) <= velocity_bound(n as int));
    assert(sm@[n as int - 1] == smoothed_spec(fs, n as int - 1));
    let mut k: usize = n - 1;
    while k > 0
        invariant
            0 <= k < n,
            n == fs.len(),
            snaps@ == fs,
            sm@.len() == n,
            n <= MAX_KALMAN_SAMPLES,
            velocity_bound(n as int) <= 10_002_000_000_000,
            variance_bound(n as int) <= 100_002_000_000_000_000,
            forall|j: int| 0 <= j < n ==> abs((#[trigger] fs[j]).velocity as int) <= velocity_bound(n as int)
                && abs(fs[j].predicted_velocity as int) <= velocity_bound(n as int)
                && 0 <= fs[j].covariance <= variance_bound(n as int)
                && 0 <= fs[j].predicted_covariance <= variance_bound(n as int),
            forall|j: int| 0 <= j < n - 1 ==> (#[trigger] fs[j]).covariance <= fs[j + 1].predicted_covariance,
            forall|j: int| k <= j < n ==> #[trigger] sm@[j] == smoothed_spec(fs, j),
            forall|j: int| k <= j < n ==> abs(#[trigger] sm@[j] as int) <= smoothed_bound(n - 1 - j, n as int),
            forall|j: int| k <= j < n - 1 ==> #[trigger] sm@[j] >= 0,
        decreases k,
    {
        let i = k - 1;
        let f = snaps[i];
        let next = snaps[k];
        let later: i128 = sm[k];
        assert(fs[i as int].covariance <= fs[k as int].predicted_covariance);
        proof {
            assert(smoothed_bound(n - 1 - k, n as int) <= 2 * MAX_KALMAN_SAMPLES * 10_002_000_000_000) by (nonlinear_arith)
                requires
                    smoothed_bound(n - 1 - k, n as int) == (2 * (n - 1 - k) + 1) * velocity_bound(n as int),
                    0 <= velocity_bound(n as int) <= 10_002_000_000_000,
                    0 <= n - 1 - k,
                    n <= MAX_KALMAN_SAMPLES,
            ;
        }
        let x: i128 = later - (next.predicted_velocity as i128);
        let s: i128 = if next.predicted_covariance > 0 {
            proof {
                lemma_partial_step(f.covariance as int, x as int, next.predicted_covariance as int);
                assert(abs((f.covariance as int) * (x as int)) <= 100_002_000_000_000_000 * 2_100_000_000_000_000_000)
                    by (nonlinear_arith)
                    requires
                        0 <= f.covariance <= 100_002_000_000_000_000int,
                        abs(x as int) <= 2_100_000_000_000_000_000int,
                ;
            }
            (f.velocity as i128) + div_trunc(f.covariance * x, next.predicted_covariance)
        } else {
            f.velocity as i128
        };
        let s2: i128 = if s < 0 {
            0
        } else {
            s
        };
        proof {
            assert(abs(s2 as int) <= smoothed_bound(n - 1 - i, n as int)) by (nonlinear_arith)
                requires
                    abs(s2 as int) <= abs(s as int),
                    abs(s as int) <= velocity_bound(n as int) + abs(x as int),
                    abs(x as int) <= abs(later as int) + velocity_bound(n as int),
                    abs(later as int) <= smoothed_bound(n - 1 - k, n as int),
                    smoothed_bound(n - 1 - k, n as int) == (2 * (n - 1 - k) + 1) * velocity_bound(n as int),
                    smoothed_bound(n - 1 - i, n as int) == (2 * (n - 1 - i) + 1) * velocity_bound(n as int),
                    i == k - 1,
            ;
        }
        sm.set(i, s2);
        k = i;
    }
    let mut k: usize = 0;
    while k < n
        invariant
            k <= n,
            n == fs.len(),
            n == a.len(),
            a == accel_samples@,
            sm@.len() == n,
            n <= MAX_KALMAN_SAMPLES,
            velocity_bound(n as int) <= 10_002_000_000_000,
            forall|j: int| 0 <= j < n ==> #[trigger] sm@[j] == smoothed_spec(fs, j),
            forall|j: int| 0 <= j < n ==> abs(#[trigger] sm@[j] as int) <= smoothed_bound(n - 1 - j, n as int),
            out@.len() == k,
            forall|j: int| 0 <= j < k ==> #[trigger] out@[j] == (a[j].0, smoothed_spec(fs, j) as i64),
            forall|j: int| 0 <= j < n - 1 ==> #[trigger] sm@[j] >= 0,
            forall|j: int| 0 <= j < k ==> abs((#[trigger] out@[j]).1 as int) <= smoothed_bound(n - 1 - j, n as int),
            forall|j: int| 0 <= j < k && j < n - 1 ==> (#[trigger] out@[j]).1 >= 0,
        decreases n - k,
    {
        proof {
            assert(smoothed_bound(n - 1 - k, n as int) <= 2 * MAX_KALMAN_SAMPLES * 10_002_000_000_000) by (nonlinear_arith)
                requires
                    smoothed_bound(n - 1 - k, n as int) == (2 * (n - 1 - k) + 1) * velocity_bound(n as int),
                    0 <= velocity_bound(n as int) <= 10_002_000_000_000,
                    0 <= n - 1 - k,
                    n <= MAX_KALMAN_SAMPLES,
            ;
        }
        out.push((accel_samples[k].0, sm[k] as i64));
        k = k + 1;
    }
    out
}

/// One noiseless reference speed at each acceleration sample's time, each the
/// velocity that the prediction step reaches there from the one before, none
/// negative; times strictly ascending with steps the predictor does not skip.
pub open spec fn reference_follows(accel: Seq<(i64, i64)>, gps: Seq<GpsSpeedSample>) -> bool {
    &&& gps.len() == accel.len()
    &&& forall|k: int|
        0 <= k < accel.len() ==> (#[trigger] gps[k]).timestamp == accel[k].0 && gps[k].speed >= 0
            && gps[k].noise == 0
    &&& accel.len() > 0 ==> gps[0].speed == tdiv(accel[0].1 * FIRST_DT_US, 1_000_000)
    &&& forall|k: int|
        1 <= k < accel.len() ==> MIN_DT_US < (#[trigger] accel[k]).0 - accel[k - 1].0 < MAX_DT_US
            && gps[k].speed == gps[k - 1].speed + tdiv(accel[k].1 * (accel[k].0 - accel[k - 1].0), 1_000_000)
}

proof fn lemma_forward_follows(accel: Seq<(i64, i64)>, gps: Seq<GpsSpeedSample>, q: int, k: int)
    requires
        kalman_inputs_ok(accel, gps, q),
        q == 0,
        reference_follows(accel, gps),
        0 <= k <= accel.len(),
    ensures
        ({
            let (s, g, snaps) = forward_spec(accel, gps, q, k);
            &&& g == k
            &&& snaps.len() == k
            &&& 0 <= s.error_covariance <= INITIAL_VARIANCE
            &&& k == 0 ==> s.last_prediction_time is None
            &&& k > 0 ==> s.velocity == gps[k - 1].speed && s.last_prediction_time == Some(accel[k - 1].0)
            &&& forall|j: int| 0 <= j < k ==> (#[trigger] snaps[j]).velocity == gps[j].speed
                && snaps[j].predicted_velocity == gps[j].speed
        }),
    decreases k,
{
    if k > 0 {
        lemma_forward_follows(accel, gps, q, k - 1);
        let (s, g, snaps) = forward_spec(accel, gps, q, k - 1);
        let (t, a) = accel[k - 1];
        let pred = predict_spec(s, a as int, t as int, q);
        let ref_k = gps[k - 1];
        assert(-MAX_SPEED <= ref_k.speed <= MAX_SPEED);
        assert(pred.velocity == ref_k.speed);
        assert(pred.last_prediction_time == Some(t));
        assert(pred.error_covariance == s.error_covariance);
        let upd = update_spec(pred, ref_k.speed as int, ref_k.noise as int);
        let p = pred.error_covariance as int;
        assert(p * (ref_k.speed - pred.velocity) == 0);
        vstd::arithmetic::div_mod::lemma_div_basics(p + MIN_NOISE);
        assert(tdiv(p * (ref_k.speed - pred.velocity), p + MIN_NOISE) == 0);
        assert(0 <= p * MIN_NOISE) by (nonlinear_arith)
            requires
                0 <= p,
        ;
        vstd::arithmetic::div_mod::lemma_div_pos_is_pos(p * MIN_NOISE, p + MIN_NOISE);
        vstd::arithmetic::div_mod::lemma_div_is_ordered_by_denominator(p * MIN_NOISE, MIN_NOISE as int, p + MIN_NOISE);
        vstd::arithmetic::div_mod::lemma_div_multiples_vanish(p, MIN_NOISE as int);
        vstd::arithmetic::mul::lemma_mul_is_commutative(p, MIN_NOISE as int);
        assert(0 <= upd.error_covariance <= p);
        assert(upd.velocity == ref_k.speed);
        assert(drain_spec(gps, t as int, pred, k - 1) == drain_spec(gps, t as int, upd, k));
        if k < gps.len() {
            assert(accel[k].0 - accel[k - 1].0 > MIN_DT_US);
        }
        assert(drain_spec(gps, t as int, upd, k) == (upd, k));
    }
}

proof fn lemma_smoothed_follows(snaps: Seq<FilterSnapshot>, k: int)
    requires
        0 <= k < snaps.len(),
        forall|j: int| 0 <= j < snaps.len() ==> (#[trigger] snaps[j]).velocity == snaps[j].predicted_velocity
            && snaps[j].velocity >= 0,
    ensures
        smoothed_spec(snaps, k) == snaps[k].velocity,
    decreases snaps.len() - k,
{
    if k < snaps.len() - 1 {
        lemma_smoothed_follows(snaps, k + 1);
        let f = snaps[k];
        let next = snaps[k + 1];
        assert(smoothed_spec(snaps, k + 1) - next.predicted_velocity == 0);
        assert(f.covariance * 0 == 0);
        if next.predicted_covariance > 0 {
            vstd::arithmetic::div_mod::lemma_div_basics(next.predicted_covariance as int);
            assert(tdiv(0, next.predicted_covariance as int) == 0);
        }
    }
}

/// With zero process noise and noiseless reference speeds at every
/// acceleration sample that agree with the accelerations, the smoothed
/// velocity equals the reference speed at every sample.
pub proof fn lemma_smoother_follows_reference(accel: Seq<(i64, i64)>, gps: Seq<GpsSpeedSample>, q: int)
    requires
        kalman_inputs_ok(accel, gps, q),
        q == 0,
        reference_follows(accel, gps),
    ensures
        forall|k: int| 0 <= k < accel.len() ==> smoothed_spec(
            #[trigger] forward_spec(accel, gps, q, accel.len() as int).2,
            k,
        ) == gps[k].speed,
{
    let n = accel.len() as int;
    lemma_forward_follows(accel, gps, q, n);
    let snaps = forward_spec(accel, gps, q, n).2;
    assert forall|j: int| 0 <= j < snaps.len() implies (#[trigger] snaps[j]).velocity == snaps[j].predicted_velocity
        && snaps[j].velocity >= 0 by {
        assert(gps[j].speed >= 0);
    }
    assert forall|k: int| 0 <= k < n implies smoothed_spec(
        #[trigger] forward_spec(accel, gps, q, n).2,
        k,
    ) == gps[k].speed by {
        lemma_smoothed_follows(snaps, k);
    }
}

} // verus!
