//! Sensor samples and the validity of a trace.
use vstd::prelude::*;

verus! {

/// Largest accepted magnitude of one sensor axis (micro-g or micro-rad/s).
pub const MAX_COMPONENT: i64 = 1_000_000_000;

/// Latest accepted timestamp, in microseconds.
pub const MAX_TIME: i64 = 100_000_000_000;

/// Most samples accepted in one trace.
pub const MAX_SAMPLES: usize = 10_000_000;

/// One accelerometer reading: timestamp in microseconds, axes in micro-g.
#[derive(Clone, Copy, Debug, PartialEq, Eq)]
pub struct AccelerationSample {
    pub timestamp: i64,
    pub x: i64,
    pub y: i64,
    pub z: i64,
}

/// One gyroscope reading: timestamp in microseconds, axes in micro-rad/s.
#[derive(Clone, Copy, Debug, PartialEq, Eq)]
pub struct GyroscopeSample {
    pub timestamp: i64,
    pub x: i64,
    pub y: i64,
    pub z: i64,
}

pub open spec fn component_ok(c: i64) -> bool {
    -MAX_COMPONENT <= c <= MAX_COMPONENT
}

impl AccelerationSample {
    pub open spec fn in_range(self) -> bool {
        0 <= self.timestamp <= MAX_TIME && component_ok(self.x) && component_ok(self.y)
            && component_ok(self.z)
    }

    /// Squared length of the acceleration vector.
    pub open spec fn sum_sq(self) -> int {
        self.x * self.x + self.y * self.y + self.z * self.z
    }
}

impl GyroscopeSample {
    pub open spec fn in_range(self) -> bool {
        0 <= self.timestamp <= MAX_TIME && component_ok(self.x) && component_ok(self.y)
            && component_ok(self.z)
    }
}

/// An accelerometer trace that the analysis accepts: bounded size and values,
/// timestamps strictly ascending.
pub open spec fn accel_trace_ok(s: Seq<AccelerationSample>) -> bool {
    &&& s.len() <= MAX_SAMPLES
    &&& forall|i: int| 0 <= i < s.len() ==> (#[trigger] s[i]).in_range()
    &&& forall|i: int, j: int|
        0 <= i < j < s.len() ==> (#[trigger] s[i]).timestamp < (#[trigger] s[j]).timestamp
}

/// A gyroscope trace that the analysis accepts.
pub open spec fn gyro_trace_ok(s: Seq<GyroscopeSample>) -> bool {
    &&& s.len() <= MAX_SAMPLES
    &&& forall|i: int| 0 <= i < s.len() ==> (#[trigger] s[i]).in_range()
}

/// A recorded sprint: its position in the recording session, the session date,
/// the nominal distance in metres and the two sensor traces.
#[derive(Debug)]
pub struct ParsedSprint {
    pub index: usize,
    pub date: String,
    pub distance: u32,
    pub accel: Vec<AccelerationSample>,
    pub gyro: Vec<GyroscopeSample>,
}

impl ParsedSprint {
    pub open spec fn well_formed(&self) -> bool {
        accel_trace_ok(self.accel@) && gyro_trace_ok(self.gyro@) && self.distance
            <= crate::splits::MAX_DISTANCE_M
    }

    /// Tells whether the sprint meets `well_formed`.
    pub fn is_well_formed(&self) -> (r: bool)
        ensures
            r == self.well_formed(),
    {
        accel_trace_is_ok(&self.accel) && gyro_trace_is_ok(&self.gyro) && self.distance
            <= crate::splits::MAX_DISTANCE_M
    }
}

/// Tells whether an accelerometer trace meets `accel_trace_ok`.
pub fn accel_trace_is_ok(s: &Vec<AccelerationSample>) -> (r: bool)
    ensures
        r == accel_trace_ok(s@),
{
    if s.len() > MAX_SAMPLES {
        return false;
    }
    let mut k: usize = 0;
    while k < s.len()
        invariant
            k <= s.len(),
            forall|i: int| 0 <= i < k ==> (#[trigger] s@[i]).in_range(),
            forall|i: int, j: int|
                0 <= i < j < k ==> (#[trigger] s@[i]).timestamp < (#[trigger] s@[j]).timestamp,
        decreases s.len() - k,
    {
        let c = s[k];
        if !(0 <= c.timestamp && c.timestamp <= MAX_TIME && -MAX_COMPONENT <= c.x
            && c.x <= MAX_COMPONENT && -MAX_COMPONENT <= c.y && c.y <= MAX_COMPONENT
            && -MAX_COMPONENT <= c.z && c.z <= MAX_COMPONENT) {
            return false;
        }
        if k > 0 && s[k - 1].timestamp >= c.timestamp {
            assert(!(s@[k - 1].timestamp < s@[k as int].timestamp));
            return false;
        }
        assert forall|i: int, j: int|
            0 <= i < j < k + 1 implies (#[trigger] s@[i]).timestamp < (#[trigger] s@[j]).timestamp by {
            if j == k && i < k - 1 {
                assert(s@[i].timestamp < s@[k - 1].timestamp);
            }
        }
        k = k + 1;
    }
    true
}

/// Tells whether a gyroscope trace meets `gyro_trace_ok`.
pub fn gyro_trace_is_ok(s: &Vec<GyroscopeSample>) -> (r: bool)
    ensures
        r == gyro_trace_ok(s@),
{
    if s.len() > MAX_SAMPLES {
        return false;
    }
    let mut k: usize = 0;
    while k < s.len()
        invariant
            k <= s.len(),
            forall|i: int| 0 <= i < k ==> (#[trigger] s@[i]).in_range(),
        decreases s.len() - k,
    {
        let c = s[k];
        if !(0 <= c.timestamp && c.timestamp <= MAX_TIME && -MAX_COMPONENT <= c.x
            && c.x <= MAX_COMPONENT && -MAX_COMPONENT <= c.y && c.y <= MAX_COMPONENT
            && -MAX_COMPONENT <= c.z && c.z <= MAX_COMPONENT) {
            return false;
        }
        k = k + 1;
    }
    true
}

/// Vector length of an accelerometer sample, in micro-g (integer square root).
pub fn magnitude(s: &AccelerationSample) -> (r: u64)
    requires
        s.in_range(),
    ensures
        crate::numeric::is_isqrt(s.sum_sq(), r as int),
        r == crate::numeric::isqrt_spec(s.sum_sq()),
        r < 4_294_967_296,
{
    assert((s.x as int) * (s.x as int) <= 1_000_000_000_000_000_000) by (nonlinear_arith)
        requires
            -1_000_000_000 <= s.x <= 1_000_000_000,
    ;
    assert((s.y as int) * (s.y as int) <= 1_000_000_000_000_000_000) by (nonlinear_arith)
        requires
            -1_000_000_000 <= s.y <= 1_000_000_000,
    ;
    assert((s.z as int) * (s.z as int) <= 1_000_000_000_000_000_000) by (nonlinear_arith)
        requires
            -1_000_000_000 <= s.z <= 1_000_000_000,
    ;
    assert((s.x as int) * (s.x as int) >= 0) by (nonlinear_arith);
    assert((s.y as int) * (s.y as int) >= 0) by (nonlinear_arith);
    assert((s.z as int) * (s.z as int) >= 0) by (nonlinear_arith);
    let xx: u64 = ((s.x as i128) * (s.x as i128)) as u64;
    let yy: u64 = ((s.y as i128) * (s.y as i128)) as u64;
    let zz: u64 = ((s.z as i128) * (s.z as i128)) as u64;
    crate::numeric::isqrt(xx + yy + zz)
}

} // verus!
