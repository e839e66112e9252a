use falcata::filters::{high_pass_rc, integrate_trapezoidal, rc_us};
use falcata::splits::{calculate_splits, interpolate_time};

#[test]
fn trapezoid_integral_exact() {
    let x = vec![0, 2, 4];
    let t = vec![0, 1_000_000, 2_000_000];
    assert_eq!(integrate_trapezoidal(&x, &t), vec![0, 1, 4]);
}

#[test]
fn trapezoid_holds_when_time_stalls() {
    let x = vec![10, 10, 10];
    let t = vec![0, 0, 1_000_000];
    assert_eq!(integrate_trapezoidal(&x, &t), vec![0, 0, 10]);
}

#[test]
fn trapezoid_mismatched_lengths_give_zeros() {
    assert_eq!(integrate_trapezoidal(&vec![1, 2, 3], &vec![0, 1]), vec![0, 0, 0]);
}

#[test]
fn rc_constant_for_tenth_hertz() {
    assert_eq!(rc_us(100), 1_591_549);
}

#[test]
fn high_pass_removes_constant() {
    let x = vec![5_000; 10];
    let t: Vec<i64> = (0..10).map(|i| i * 10_000).collect();
    assert_eq!(high_pass_rc(&x, &t, 100), vec![0; 10]);
}

#[test]
fn high_pass_step_response() {
    let x = vec![0, 1_000];
    let t = vec![0, 1_000_000];
    // 1591549 * 1000 / 2591549 = 614.13...
    assert_eq!(high_pass_rc(&x, &t, 100), vec![0, 614]);
}

#[test]
fn high_pass_repeats_output_when_time_stalls() {
    let x = vec![0, 1_000, 2_000];
    let t = vec![0, 1_000_000, 1_000_000];
    assert_eq!(high_pass_rc(&x, &t, 100), vec![0, 614, 614]);
}

#[test]
fn high_pass_short_input_unchanged() {
    assert_eq!(high_pass_rc(&vec![7], &vec![0], 100), vec![7]);
}

fn linear_curve(speed_um_per_s: i64, end_us: i64, step_us: i64) -> Vec<(i64, i64)> {
    let mut c = Vec::new();
    let mut t = 0;
    while t <= end_us {
        c.push((t, speed_um_per_s * t / 1_000_000));
        t += step_us;
    }
    c
}

#[test]
fn splits_on_constant_speed_curve() {
    let curve = linear_curve(5_000_000, 12_000_000, 100_000);
    let s = calculate_splits(&curve, 60);
    assert_eq!(s.len(), 6);
    for (k, split) in s.iter().enumerate() {
        let mark = (k as i64 + 1) * 10_000_000;
        assert_eq!(split.distance_mark, mark);
        assert_eq!(split.time, mark / 5);
        assert_eq!(split.segment_velocity, 5_000_000);
    }
}

#[test]
fn splits_extrapolate_final_mark() {
    // 5 m/s up to 11.9 s, curve ends at 59.5 m
    let curve = linear_curve(5_000_000, 11_900_000, 100_000);
    let s = calculate_splits(&curve, 60);
    assert_eq!(s.len(), 6);
    assert_eq!(s[5].distance_mark, 60_000_000);
    assert_eq!(s[5].time, 12_000_000);
    assert_eq!(s[5].segment_velocity, 5_000_000);
}

#[test]
fn splits_short_curve_omits_marks() {
    let curve = linear_curve(5_000_000, 5_000_000, 100_000);
    let s = calculate_splits(&curve, 60);
    assert_eq!(s.len(), 2);
}

#[test]
fn splits_empty_cases() {
    assert!(calculate_splits(&vec![], 60).is_empty());
    assert!(calculate_splits(&vec![(0, 0), (1_000_000, 5_000_000)], 0).is_empty());
}

#[test]
fn interpolation_equal_distances_gives_earlier_time() {
    let curve = vec![(0, 0), (1_000_000, 10_000_000), (2_000_000, 10_000_000)];
    assert_eq!(interpolate_time(10_000_000, &curve), Some(1_000_000));
    assert_eq!(interpolate_time(5_000_000, &curve), Some(500_000));
    assert_eq!(interpolate_time(20_000_000, &curve), None);
}
