use falcata::analysis::{analyze, analyze_all, build_gyro_data, is_recorded_sprint, AnalysisError, Axis};
use falcata::detection::Decision;
use falcata::kalman::{process_batch_smoothed, GpsSpeedSample, KalmanConfig};
use falcata::types::{AccelerationSample, GyroscopeSample, ParsedSprint};
use falcata::velocity::calculate_velocity;

fn accel(t: i64, mag: i64) -> AccelerationSample {
    AccelerationSample { timestamp: t, x: mag, y: 0, z: 0 }
}

/// 100 Hz for 12 s: 1 g, 3 g from 1 s to 9 s, then 1 g again.
fn sprint_trace() -> Vec<AccelerationSample> {
    (0..=1200)
        .map(|i| {
            let t = i * 10_000;
            let mag = if t >= 1_000_000 && t < 9_000_000 { 3_000_000 } else { 1_000_000 };
            accel(t, mag)
        })
        .collect()
}

fn gyro_trace(n: usize, ax: i64, ay: i64, az: i64) -> Vec<GyroscopeSample> {
    (0..n)
        .map(|i| {
            let s = if i % 2 == 0 { 1 } else { -1 };
            GyroscopeSample { timestamp: i as i64 * 10_000, x: s * ax, y: s * ay, z: s * az }
        })
        .collect()
}

fn sprint(index: usize, accel: Vec<AccelerationSample>) -> ParsedSprint {
    ParsedSprint {
        index,
        date: "2024-05-01".to_string(),
        distance: 60,
        accel,
        gyro: gyro_trace(150, 1_000, 500, 0),
    }
}

#[test]
fn analyze_detects_sprint_end() {
    let s = sprint(1, sprint_trace());
    assert!(s.is_well_formed());
    let r = analyze(&s).unwrap();
    assert_eq!(r.index, 1);
    assert_eq!(r.date, "2024-05-01");
    assert_eq!(r.distance, 60);
    assert_eq!(r.plot_data.sprint_level, 3_000_000);
    assert_eq!(r.plot_data.threshold, 2_700_000);
    assert_eq!(r.decision, Decision::Agree);
    assert_eq!(r.fwd_dur, 7_650_000);
    assert_eq!(r.bwd_dur, 7_640_000);
    assert_eq!(r.final_dur, 7_645_000);
    assert_eq!(r.gap, 10_000);
    let d = r.detection();
    assert_eq!(d.sprint_level, 3_000_000);
    assert_eq!(d.final_dur, 7_645_000);
    assert_eq!(r.plot_data.t[0], -1_500_000);
    assert_eq!(r.plot_data.rolling[3], None);
    assert_eq!(r.plot_data.rolling[4], Some(1_000_000));
    assert_eq!(r.plot_data.raw_mag[500], 3_000_000);
    let g = r.gyro_data.unwrap();
    assert_eq!(g.dominant_axis, Axis::X);
    assert_eq!(g.t[0], -1_500_000);
}

#[test]
fn analyze_rejects_short_trace() {
    let s = sprint(1, sprint_trace().into_iter().take(99).collect());
    let r = analyze(&s);
    assert!(matches!(r, Err(AnalysisError::TooFewSamples)));
    assert_eq!(AnalysisError::TooFewSamples.message(), "Too few acceleration samples");
}

#[test]
fn analyze_without_enough_gyro_samples() {
    let mut s = sprint(1, sprint_trace());
    s.gyro = gyro_trace(99, 1_000, 500, 0);
    let r = analyze(&s).unwrap();
    assert!(r.gyro_data.is_none());
}

#[test]
fn batch_skips_sprint_with_few_samples() {
    let sprints = vec![
        sprint(1, sprint_trace()),
        sprint(2, sprint_trace().into_iter().take(50).collect()),
        sprint(3, sprint_trace()),
    ];
    let r = analyze_all(&sprints);
    assert_eq!(r.len(), 2);
    assert_eq!(r[0].index, 1);
    assert_eq!(r[1].index, 3);
}

#[test]
fn gyro_dominant_axis_and_ties() {
    assert_eq!(build_gyro_data(&gyro_trace(120, 1_000, 1_000, 1_000), 0).unwrap().dominant_axis, Axis::X);
    assert_eq!(build_gyro_data(&gyro_trace(120, 1_000, 2_000, 2_000), 0).unwrap().dominant_axis, Axis::Y);
    assert_eq!(build_gyro_data(&gyro_trace(120, 1_000, 2_000, 3_000), 0).unwrap().dominant_axis, Axis::Z);
    assert_eq!(Axis::Z.label(), "z");
    assert!(build_gyro_data(&gyro_trace(99, 1, 2, 3), 0).is_none());
}

/// 1 g until 2 s, then 3 g, at 100 Hz for 10 s.
fn step_trace() -> Vec<AccelerationSample> {
    (0..=1000)
        .map(|i| {
            let t = i * 10_000;
            accel(t, if t < 2_000_000 { 1_000_000 } else { 3_000_000 })
        })
        .collect()
}

#[test]
fn velocity_profile_is_scaled_to_distance() {
    let v = calculate_velocity(&step_trace(), 2_000_000, 8_000_000, 100).unwrap();
    assert!(v.scale_factor >= 330_000 && v.scale_factor <= 3_000_000);
    assert_eq!(v.velocity_curve.len(), v.distance_curve.len());
    assert_eq!(v.distance_curve[0].0, -500_000);
    assert!(v.max_velocity > 0);
    // the distance at the sprint end is the nominal one, up to rounding
    let end = v.distance_curve.iter().find(|p| p.0 >= 6_000_000).unwrap();
    assert!((end.1 - 100_000_000).abs() <= 1_000);
}

#[test]
fn velocity_absent_when_scale_out_of_range() {
    assert!(calculate_velocity(&step_trace(), 2_000_000, 8_000_000, 1_000).is_none());
    assert!(calculate_velocity(&step_trace(), 2_000_000, 8_000_000, 10).is_none());
}

#[test]
fn velocity_absent_for_short_or_flat_input() {
    assert!(calculate_velocity(&step_trace(), 2_000_000, 3_000_000, 100).is_none());
    assert!(calculate_velocity(&step_trace(), 2_000_000, 8_000_000, 0).is_none());
    let flat: Vec<AccelerationSample> = (0..=1000).map(|i| accel(i * 10_000, 1_000_000)).collect();
    assert!(calculate_velocity(&flat, 2_000_000, 8_000_000, 100).is_none());
}

#[test]
fn kalman_follows_consistent_reference_exactly() {
    let accel: Vec<(i64, i64)> = (0..100).map(|k| (k * 10_000, 1_000_000)).collect();
    let gps: Vec<GpsSpeedSample> = (0..100)
        .map(|k| GpsSpeedSample { timestamp: k * 10_000, speed: 10_000 * (k + 1), noise: 0 })
        .collect();
    let config = KalmanConfig { process_noise: 0, measurement_noise: 0 };
    let r = process_batch_smoothed(&accel, &gps, &config);
    assert_eq!(r.len(), 100);
    for k in 0..100 {
        assert_eq!(r[k], (k as i64 * 10_000, 10_000 * (k as i64 + 1)));
    }
}

#[test]
fn kalman_without_reference_integrates() {
    let accel: Vec<(i64, i64)> = (0..5).map(|k| (k * 10_000, 1_000_000)).collect();
    let r = process_batch_smoothed(&accel, &vec![], &KalmanConfig::default());
    let v: Vec<i64> = r.iter().map(|p| p.1).collect();
    assert_eq!(v, vec![10_000, 20_000, 30_000, 40_000, 50_000]);
}

#[test]
fn kalman_clamps_negative_smoothed_velocity() {
    let accel: Vec<(i64, i64)> = (0..5).map(|k| (k * 10_000, -1_000_000)).collect();
    let r = process_batch_smoothed(&accel, &vec![], &KalmanConfig::default());
    assert_eq!(r[4].1, -50_000);
    for k in 0..4 {
        assert!(r[k].1 >= 0);
    }
}

#[test]
fn kalman_skips_stale_and_gap_steps() {
    let accel = vec![(0, 1_000_000), (500, 1_000_000), (600_500, 1_000_000), (610_500, 1_000_000)];
    let r = process_batch_smoothed(&accel, &vec![], &KalmanConfig::default());
    let v: Vec<i64> = r.iter().map(|p| p.1).collect();
    assert_eq!(v, vec![10_000, 10_000, 10_000, 20_000]);
}

#[test]
fn kalman_empty_input() {
    assert!(process_batch_smoothed(&vec![], &vec![], &KalmanConfig::default()).is_empty());
}

#[test]
fn kalman_config_presets() {
    let d = KalmanConfig::default();
    assert_eq!((d.process_noise, d.measurement_noise), (150_000_000_000, 400_000_000_000));
    let g = KalmanConfig::gps_optimized();
    assert_eq!((g.process_noise, g.measurement_noise), (200_000_000_000, 300_000_000_000));
}

#[test]
fn recorded_sprint_selection() {
    assert!(is_recorded_sprint(60, 100));
    assert!(!is_recorded_sprint(59, 100));
    assert!(!is_recorded_sprint(100, 99));
}

#[test]
fn forward_scan_starts_after_detected_start() {
    // standing still for 5 s, then 3 g until 13 s, at 100 Hz for 16 s
    let accel: Vec<AccelerationSample> = (0..=1600)
        .map(|i| {
            let t = i * 10_000;
            accel(t, if t >= 5_000_000 && t < 13_000_000 { 3_000_000 } else { 1_000_000 })
        })
        .collect();
    let r = analyze(&sprint(1, accel)).unwrap();
    assert_eq!(r.plot_data.t[0], -5_500_000);
    assert_eq!(r.fwd_dur, 7_650_000);
    assert_eq!(r.bwd_dur, 7_640_000);
    assert_eq!(r.decision, Decision::Agree);
}
