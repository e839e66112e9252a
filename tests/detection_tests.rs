use falcata::detection::{decide, find_sprint_level, median, min_sprint_time, sorted_copy, Decision};
use falcata::rolling::{rolling_mean, window_samples};

#[test]
fn rolling_mean_undefined_with_short_history() {
    let mags: Vec<u64> = vec![1_000_000; 30];
    let r = rolling_mean(&mags, 10);
    assert_eq!(r.len(), 30);
    for i in 0..4 {
        assert_eq!(r[i], None);
    }
    assert_eq!(r[4], Some(1_000_000));
    assert_eq!(r[29], Some(1_000_000));
}

#[test]
fn rolling_mean_zero_magnitude_is_defined() {
    let mags: Vec<u64> = vec![0; 8];
    let r = rolling_mean(&mags, 10);
    assert_eq!(r[3], None);
    assert_eq!(r[4], Some(0));
}

#[test]
fn rolling_mean_trailing_window_average() {
    let mags: Vec<u64> = (1..=12).map(|v| v as u64).collect();
    let r = rolling_mean(&mags, 10);
    // index 4: (1+2+3+4+5)/5 = 3
    assert_eq!(r[4], Some(3));
    // index 11: window 3..=12, sum 75, mean 7 (floor of 7.5)
    assert_eq!(r[11], Some(7));
}

#[test]
fn window_samples_from_rate() {
    // 200 samples over 1.99 s: rate ~100.5 Hz, window of 1 s rounds to 101
    assert_eq!(window_samples(1_000_000, 200, 1_990_000), 101);
    // floor of 10 samples
    assert_eq!(window_samples(1_000_000, 20, 10_000_000), 10);
    // a zero span covers the whole trace
    assert_eq!(window_samples(1_000_000, 50, 0), 50);
}

#[test]
fn decide_agree_takes_midpoint() {
    let (t, d, gap) = decide(10_000_000, 11_000_000);
    assert_eq!(t, 10_500_000);
    assert_eq!(d, Decision::Agree);
    assert_eq!(d.label(), "agree");
    assert_eq!(gap, 1_000_000);
}

#[test]
fn decide_trusts_backward_when_forward_is_early() {
    let (t, d, gap) = decide(5_000_000, 20_000_000);
    assert_eq!(t, 20_000_000);
    assert_eq!(d, Decision::TrustBackward);
    assert_eq!(d.label(), "trust_backward");
    assert_eq!(gap, 15_000_000);
}

#[test]
fn decide_trusts_forward_when_forward_is_late() {
    let (t, d, gap) = decide(20_000_000, 5_000_000);
    assert_eq!(t, 20_000_000);
    assert_eq!(d, Decision::TrustForward);
    assert_eq!(d.label(), "trust_forward");
    assert_eq!(gap, 15_000_000);
}

#[test]
fn decide_gap_exactly_at_limit_agrees() {
    let (t, d, _) = decide(10_000_000, 11_500_000);
    assert_eq!(d, Decision::Agree);
    assert_eq!(t, 10_750_000);
}

#[test]
fn min_sprint_time_by_distance() {
    assert_eq!(min_sprint_time(60), 3_000_000);
    assert_eq!(min_sprint_time(70), 4_000_000);
    assert_eq!(min_sprint_time(100), 5_000_000);
    assert_eq!(min_sprint_time(200), 15_000_000);
    assert_eq!(min_sprint_time(290), 25_000_000);
    assert_eq!(min_sprint_time(400), 40_000_000);
}

#[test]
fn median_odd_and_even() {
    assert_eq!(median(&vec![3, 1, 2]), 2);
    assert_eq!(median(&vec![4, 1, 3, 2]), 2);
    assert_eq!(median(&vec![10, 20]), 15);
    assert_eq!(sorted_copy(&vec![5, 3, 9, 1, 3]), vec![1, 3, 3, 5, 9]);
}

#[test]
fn sprint_level_defaults_with_few_values() {
    let ts: Vec<i64> = (0..10).map(|i| i * 1_000_000).collect();
    let rolling: Vec<Option<u64>> = vec![Some(3_000_000); 10];
    // only indices 2..=6 lie in the middle of the trace
    assert_eq!(find_sprint_level(&ts, &rolling), 5_000_000);
}

#[test]
fn sprint_level_is_median_of_middle() {
    let ts: Vec<i64> = (0..100).map(|i| i * 10_000).collect();
    let rolling: Vec<Option<u64>> = (0..100).map(|i| Some(i as u64)).collect();
    // middle window is t in [198 ms, 693 ms]: indices 20..=69, median (44+45)/2
    assert_eq!(find_sprint_level(&ts, &rolling), 44);
}
