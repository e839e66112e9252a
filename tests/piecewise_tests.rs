use falcata::piecewise::{downsample, fit_piecewise, grid_search, solve_4x4, Confidence};

fn system(rows: [[i128; 5]; 4]) -> Vec<i128> {
    rows.iter().flat_map(|r| r.iter().copied()).collect()
}

#[test]
fn solve_diagonal_system() {
    let m = system([[2, 0, 0, 0, 4], [0, 1, 0, 0, 3], [0, 0, 4, 0, 8], [0, 0, 0, 1, -5]]);
    assert_eq!(solve_4x4(&m), Some(vec![2, 3, 2, -5]));
}

#[test]
fn solve_needs_row_exchange() {
    let m = system([[0, 1, 0, 0, 1], [1, 0, 0, 0, 2], [0, 0, 1, 0, 3], [0, 0, 0, 1, 4]]);
    assert_eq!(solve_4x4(&m), Some(vec![2, 1, 3, 4]));
}

#[test]
fn solve_full_system() {
    // x = (1000, -2000, 3000, 4000), entries scaled so that rounding stays small
    let k = 1_000_000;
    let a = [[4, 1, 2, 1], [1, 3, 0, 1], [2, 0, 5, 2], [1, 1, 2, 6]];
    let x = [1000i128, -2000, 3000, 4000];
    let mut rows = [[0i128; 5]; 4];
    for r in 0..4 {
        for c in 0..4 {
            rows[r][c] = a[r][c] * k;
            rows[r][4] += a[r][c] * k * x[c];
        }
    }
    let got = solve_4x4(&system(rows)).unwrap();
    for i in 0..4 {
        assert!((got[i] - x[i]).abs() <= 1);
    }
}

#[test]
fn solve_singular_system() {
    let m = system([[1, 2, 0, 0, 1], [2, 4, 0, 0, 2], [0, 0, 1, 0, 0], [0, 0, 0, 1, 0]]);
    assert_eq!(solve_4x4(&m), None);
}

/// Rolling mean rising 1 g/s from 2 g to 4 g over 2 s, flat until 10 s, then
/// falling 1 g/s, sampled at 100 Hz up to 14 s.
fn three_phase() -> (Vec<i64>, Vec<Option<u64>>) {
    let mut t = Vec::new();
    let mut r = Vec::new();
    for i in 0..=1400i64 {
        let us = i * 10_000;
        let y = if us <= 2_000_000 {
            2_000_000 + us
        } else if us <= 10_000_000 {
            4_000_000
        } else {
            4_000_000 - (us - 10_000_000)
        };
        t.push(us);
        r.push(Some(y as u64));
    }
    (t, r)
}

#[test]
fn fit_recovers_breakpoints() {
    let (t, r) = three_phase();
    let fit = fit_piecewise(&t, &r, 10, 60).unwrap();
    assert!((fit.bp1 - 2_000_000).abs() <= 100_000);
    assert!((fit.bp2 - 10_000_000).abs() <= 100_000);
    assert!(fit.s1 > 0);
    assert!(fit.s3 < 0);
    assert_eq!(fit.confidence, Confidence::High);
    assert_eq!(fit.confidence.label(), "high");
    assert!((fit.sprint_level - 4_000_000).abs() <= 50_000);
}

#[test]
fn fit_needs_enough_points() {
    let (t, r) = three_phase();
    let t: Vec<i64> = t.into_iter().take(150).collect();
    let r: Vec<Option<u64>> = r.into_iter().take(150).collect();
    assert!(fit_piecewise(&t, &r, 10, 60).is_none());
}

#[test]
fn downsample_skips_undefined_points() {
    let t = vec![0, 1_000, 2_000, 3_000, 4_000, 5_000];
    let r = vec![Some(1), None, Some(3), Some(4), None, Some(6)];
    let (ts, ys) = downsample(&t, &r, 2);
    assert_eq!(ts, vec![0, 2]);
    assert_eq!(ys, vec![1, 3]);
}

#[test]
fn grid_with_empty_ranges_is_none() {
    let (t, r) = three_phase();
    let (ts, ys) = downsample(&t, &r, 10);
    assert_eq!(grid_search(&ts, &ys, 5_000, 1_000, 3_000, 13_000, 500), None);
}
