use falcata::numeric::{div_trunc, isqrt};
use falcata::types::{accel_trace_is_ok, magnitude, AccelerationSample};

#[test]
fn isqrt_values() {
    assert_eq!(isqrt(0), 0);
    assert_eq!(isqrt(15), 3);
    assert_eq!(isqrt(16), 4);
    assert_eq!(isqrt(u64::MAX), 4_294_967_295);
}

#[test]
fn truncating_division() {
    assert_eq!(div_trunc(7, 2), 3);
    assert_eq!(div_trunc(-7, 2), -3);
}

#[test]
fn magnitude_of_sample() {
    let s = AccelerationSample { timestamp: 0, x: 3_000, y: 4_000, z: 0 };
    assert_eq!(magnitude(&s), 5_000);
}

#[test]
fn trace_must_ascend() {
    let a = AccelerationSample { timestamp: 10, x: 0, y: 0, z: 0 };
    let b = AccelerationSample { timestamp: 5, x: 0, y: 0, z: 0 };
    assert!(accel_trace_is_ok(&vec![b, a]));
    assert!(!accel_trace_is_ok(&vec![a, b]));
    assert!(!accel_trace_is_ok(&vec![a, a]));
}
