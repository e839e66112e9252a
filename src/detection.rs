//! Sprint boundary detection: sprint level and start, the forward and the
//! backward threshold scans, and the policy that reconciles them.
use vstd::prelude::*;
use vstd::relations::{sorted_by, total_ordering};

verus! {

/// Gap between the two scans, in microseconds, up to which they agree.
pub const AGREEMENT_US: i64 = 1_500_000;

/// Rolling-mean level, in micro-g, above which the sprint has started.
pub const START_FLOOR: u64 = 2_000_000;

/// Sprint level, in micro-g, used when too few mid-trace values exist.
pub const DEFAULT_LEVEL: u64 = 5_000_000;

/// Fewest mid-trace values from which the sprint level is a median.
pub const MIN_LEVEL_VALUES: usize = 10;

/// How the final sprint end was chosen from the two scans.
#[derive(Clone, Copy, Debug, PartialEq, Eq)]
pub enum Decision {
    Agree,
    TrustForward,
    TrustBackward,
}

impl Decision {
    /// The decision's label: "agree", "trust_forward" or "trust_backward".
    pub fn label(&self) -> (r: &'static str)
        ensures
            *self == Decision::Agree ==> r@ == "agree"@,
            *self == Decision::TrustForward ==> r@ == "trust_forward"@,
            *self == Decision::TrustBackward ==> r@ == "trust_backward"@,
    {
        match self {
            Decision::Agree => "agree",
            Decision::TrustForward => "trust_forward",
            Decision::TrustBackward => "trust_backward",
        }
    }
}

/// Shortest plausible sprint time, in microseconds, for a nominal distance in metres.
pub open spec fn min_sprint_time_spec(distance: u32) -> i64 {
    if distance <= 60 {
        3_000_000
    } else if distance <= 70 {
        4_000_000
    } else if distance <= 100 {
        5_000_000
    } else if distance <= 200 {
        15_000_000
    } else if distance <= 290 {
        25_000_000
    } else {
        40_000_000
    }
}

/// Shortest plausible sprint time, in microseconds, for a nominal distance in metres.
pub fn min_sprint_time(distance: u32) -> (r: i64)
    ensures
        r == min_sprint_time_spec(distance),
{
    if distance <= 60 {
        3_000_000
    } else if distance <= 70 {
        4_000_000
    } else if distance <= 100 {
        5_000_000
    } else if distance <= 200 {
        15_000_000
    } else if distance <= 290 {
        25_000_000
    } else {
        40_000_000
    }
}

/// The reconciled end time, the decision and the gap for two scan results.
pub open spec fn decide_spec(fwd: int, bwd: int) -> (int, Decision, int) {
    let gap = crate::numeric::abs(fwd - bwd);
    if gap <= AGREEMENT_US {
        ((fwd + bwd) / 2, Decision::Agree, gap)
    } else if fwd < bwd {
        (bwd, Decision::TrustBackward, gap)
    } else {
        (fwd, Decision::TrustForward, gap)
    }
}

/// Reconciles the forward and backward end times (microseconds): their
/// midpoint when they lie within `AGREEMENT_US`, else the later one.
pub fn decide(fwd: i64, bwd: i64) -> (r: (i64, Decision, i64))
    requires
        0 <= fwd <= crate::types::MAX_TIME,
        0 <= bwd <= crate::types::MAX_TIME,
    ensures
        r.0 == decide_spec(fwd as int, bwd as int).0,
        r.1 == decide_spec(fwd as int, bwd as int).1,
        r.2 == decide_spec(fwd as int, bwd as int).2,
{
    let gap: i64 = if fwd >= bwd {
        fwd - bwd
    } else {
        bwd - fwd
    };
    if gap <= AGREEMENT_US {
        ((fwd + bwd) / 2, Decision::Agree, gap)
    } else if fwd < bwd {
        (bwd, Decision::TrustBackward, gap)
    } else {
        (fwd, Decision::TrustForward, gap)
    }
}

/// A rolling-mean value above the sprint-start floor.
pub open spec fn starts_sprint(r: Option<u64>) -> bool {
    match r {
        Some(v) => v > START_FLOOR,
        None => false,
    }
}

/// A defined rolling-mean value at or above 90% of `level`.
pub open spec fn at_or_above(r: Option<u64>, level: u64) -> bool {
    match r {
        Some(v) => 10 * v >= 9 * level,
        None => false,
    }
}

/// A defined rolling-mean value below 90% of `level`.
pub open spec fn below(r: Option<u64>, level: u64) -> bool {
    match r {
        Some(v) => 10 * v < 9 * level,
        None => false,
    }
}

/// Every defined value in `rolling[i .. i + sustain]` (cut at the end) is below
/// 90% of `level`; undefined values do not break the run.
pub open spec fn sustained_below(rolling: Seq<Option<u64>>, level: u64, i: int, sustain: int) -> bool {
    forall|j: int| i <= j < i + sustain && j < rolling.len() ==> !at_or_above(#[trigger] rolling[j], level)
}

/// Index `i` ends the sprint for the forward scan.
pub open spec fn forward_hit(
    ts: Seq<i64>,
    rolling: Seq<Option<u64>>,
    level: u64,
    search_start: int,
    sustain: int,
    i: int,
) -> bool {
    ts[i] >= search_start && below(rolling[i], level) && sustained_below(rolling, level, i, sustain)
}

/// Index of the first rolling-mean value above the sprint-start floor.
pub fn sprint_start_index(rolling: &Vec<Option<u64>>) -> (r: Option<usize>)
    ensures
        match r {
            Some(i) => i < rolling@.len() && starts_sprint(rolling@[i as int]) && forall|k: int|
                0 <= k < i ==> !starts_sprint(#[trigger] rolling@[k]),
            None => forall|k: int| 0 <= k < rolling@.len() ==> !starts_sprint(#[trigger] rolling@[k]),
        },
{
    let mut i: usize = 0;
    while i < rolling.len()
        invariant
            i <= rolling@.len(),
            forall|k: int| 0 <= k < i ==> !starts_sprint(#[trigger] rolling@[k]),
        decreases rolling@.len() - i,
    {
        if let Some(v) = rolling[i] {
            if v > START_FLOOR {
                return Some(i);
            }
        }
        i = i + 1;
    }
    None
}

/// Backward scan: index of the last value at or above 90% of `level`.
pub fn detect_backward(rolling: &Vec<Option<u64>>, level: u64) -> (r: Option<usize>)
    requires
        level < 4_294_967_296,
    ensures
        match r {
            Some(i) => i < rolling@.len() && at_or_above(rolling@[i as int], level) && forall|k: int|
                i < k < rolling@.len() ==> !at_or_above(#[trigger] rolling@[k], level),
            None => forall|k: int| 0 <= k < rolling@.len() ==> !at_or_above(#[trigger] rolling@[k], level),
        },
{
    let mut i: usize = rolling.len();
    while i > 0
        invariant
            i <= rolling@.len(),
            level < 4_294_967_296,
            forall|k: int| i <= k < rolling@.len() ==> !at_or_above(#[trigger] rolling@[k], level),
        decreases i,
    {
        i = i - 1;
        if let Some(v) = rolling[i] {
            if (v as u128) * 10 >= (level as u128) * 9 {
                return Some(i);
            }
        }
    }
    None
}

/// Forward scan: index of the first sample at or after `search_start` whose value
/// is below 90% of `level` and stays so over `sustain` samples.
pub fn detect_forward(
    ts: &Vec<i64>,
    rolling: &Vec<Option<u64>>,
    level: u64,
    search_start: i64,
    sustain: usize,
) -> (r: Option<usize>)
    requires
        ts@.len() == rolling@.len(),
        level < 4_294_967_296,
    ensures
        match r {
            Some(i) => i < ts@.len() && forward_hit(ts@, rolling@, level, search_start as int, sustain as int, i as int)
                && forall|k: int| 0 <= k < i ==> !forward_hit(ts@, rolling@, level, search_start as int, sustain as int, k),
            None => forall|k: int| 0 <= k < ts@.len() ==> !forward_hit(ts@, rolling@, level, search_start as int, sustain as int, k),
        },
{
    let n = ts.len();
    let mut i: usize = 0;
    while i < n
        invariant
            i <= n,
            n == ts@.len(),
            n == rolling@.len(),
            level < 4_294_967_296,
            forall|k: int| 0 <= k < i ==> !forward_hit(ts@, rolling@, level, search_start as int, sustain as int, k),
        decreases n - i,
    {
        if ts[i] >= search_start {
            if let Some(val) = rolling[i] {
                if (val as u128) * 10 < (level as u128) * 9 {
                    let end_check: usize = if sustain <= n - i {
                        i + sustain
                    } else {
                        n
                    };
                    let mut sustained = true;
                    let mut j: usize = i;
                    while j < end_check && sustained
                        invariant
                            i <= j <= end_check <= n,
                            n == rolling@.len(),
                            end_check == i + sustain || end_check == n,
                            end_check <= i + sustain,
                            level < 4_294_967_296,
                            sustained ==> forall|m: int| i <= m < j ==> !at_or_above(#[trigger] rolling@[m], level),
                            !sustained ==> j < end_check && at_or_above(rolling@[j as int], level),
                        decreases end_check - j + (if sustained { 1int } else { 0int }),
                    {
                        let mut hit = false;
                        if let Some(v) = rolling[j] {
                            if (v as u128) * 10 >= (level as u128) * 9 {
                                hit = true;
                            }
                        }
                        if hit {
                            sustained = false;
                        } else {
                            j = j + 1;
                        }
                    }
                    if sustained {
                        assert(sustained_below(rolling@, level, i as int, sustain as int));
                        return Some(i);
                    }
                    assert(!sustained_below(rolling@, level, i as int, sustain as int)) by {
                        assert(at_or_above(rolling@[j as int], level));
                    }
                }
            }
        }
        i = i + 1;
    }
    None
}

/// Ascending order on values.
pub open spec fn leq_u64() -> spec_fn(u64, u64) -> bool {
    |a: u64, b: u64| a <= b
}

/// Median of an ascending sequence: the middle value, or the floor of the
/// average of the two middle values for an even length.
pub open spec fn median_of_sorted(s: Seq<u64>) -> int {
    let m = (s.len() / 2) as int;
    if s.len() % 2 == 0 {
        (s[m - 1] + s[m]) / 2
    } else {
        s[m] as int
    }
}

/// Median of a non-empty sequence of values.
pub open spec fn median_spec(v: Seq<u64>) -> int {
    median_of_sorted(v.sort_by(leq_u64()))
}

/// `t` lies in the 20%..70% part of a trace that starts at `t0` and lasts `dur`.
pub open spec fn in_middle(t: int, t0: int, dur: int) -> bool {
    5 * (t - t0) >= dur && 10 * (t - t0) <= 7 * dur
}

/// The defined rolling-mean values among the first `k` samples whose time lies
/// in the middle of the trace, in trace order.
pub open spec fn middle_values(ts: Seq<i64>, rolling: Seq<Option<u64>>, t0: int, dur: int, k: int) -> Seq<u64>
    decreases k,
{
    if k <= 0 {
        Seq::empty()
    } else {
        let prev = middle_values(ts, rolling, t0, dur, k - 1);
        if in_middle(ts[k - 1] as int, t0, dur) {
            match rolling[k - 1] {
                Some(v) => prev.push(v),
                None => prev,
            }
        } else {
            prev
        }
    }
}

/// The sprint level: the median of the middle values, or `DEFAULT_LEVEL` when
/// fewer than `MIN_LEVEL_VALUES` exist.
pub open spec fn sprint_level_spec(ts: Seq<i64>, rolling: Seq<Option<u64>>) -> int {
    let t0 = ts[0] as int;
    let dur = ts[ts.len() - 1] - t0;
    let v = middle_values(ts, rolling, t0, dur, ts.len() as int);
    if v.len() < MIN_LEVEL_VALUES {
        DEFAULT_LEVEL as int
    } else {
        median_spec(v)
    }
}

proof fn lemma_leq_total()
    ensures
        total_ordering(leq_u64()),
{
    let leq = leq_u64();
    assert(vstd::relations::reflexive(leq));
    assert(vstd::relations::antisymmetric(leq));
    assert(vstd::relations::transitive(leq));
    assert(vstd::relations::strongly_connected(leq));
}

/// The values of `v` in ascending order.
pub fn sorted_copy(v: &Vec<u64>) -> (r: Vec<u64>)
    ensures
        r@ == v@.sort_by(leq_u64()),
{
    broadcast use vstd::seq_lib::group_to_multiset_ensures;

    let mut out: Vec<u64> = Vec::new();
    let mut k: usize = 0;
    while k < v.len()
        invariant
            k <= v@.len(),
            sorted_by(out@, leq_u64()),
            out@.to_multiset() == v@.subrange(0, k as int).to_multiset(),
        decreases v@.len() - k,
    {
        let x = v[k];
        let mut p: usize = 0;
        while p < out.len() && out[p] <= x
            invariant
                p <= out@.len(),
                forall|q: int| 0 <= q < p ==> out@[q] <= x,
            decreases out@.len() - p,
        {
            p = p + 1;
        }
        let ghost before = out@;
        proof {
            if p < before.len() {
                assert(before[p as int] > x);
                assert forall|q: int| p <= q < before.len() implies before[q] > x by {
                    if q > p {
                        assert(leq_u64()(before[p as int], before[q]));
                    }
                }
            }
        }
        out.insert(p, x);
        proof {
            assert(out@ == before.insert(p as int, x));
            vstd::seq_lib::to_multiset_insert(before, p as int, x);
            assert(v@.subrange(0, k + 1) =~= v@.subrange(0, k as int).push(x));
            vstd::seq_lib::to_multiset_build(v@.subrange(0, k as int), x);
            assert forall|i: int, j: int| 0 <= i < j < out@.len() implies #[trigger] leq_u64()(out@[i], out@[j]) by {
                if j < p {
                    assert(leq_u64()(before[i], before[j]));
                } else if j == p {
                } else if i < p {
                } else if i == p {
                } else {
                    assert(leq_u64()(before[i - 1], before[j - 1]));
                }
            }
        }
        k = k + 1;
    }
    proof {
        assert(v@.subrange(0, v@.len() as int) == v@);
        lemma_leq_total();
        v@.lemma_sort_by_ensures(leq_u64());
        vstd::seq_lib::lemma_sorted_unique(out@, v@.sort_by(leq_u64()), leq_u64());
    }
    out
}

/// Median of the values of `v`.
pub fn median(v: &Vec<u64>) -> (r: u64)
    requires
        v@.len() > 0,
        forall|i: int| 0 <= i < v@.len() ==> v@[i] < 4_294_967_296,
    ensures
        r == median_spec(v@),
        r < 4_294_967_296,
{
    let s = sorted_copy(v);
    proof {
        broadcast use vstd::seq_lib::group_to_multiset_ensures;
        lemma_leq_total();
        v@.lemma_sort_by_ensures(leq_u64());
        vstd::seq_lib::to_multiset_len(s@);
        vstd::seq_lib::to_multiset_len(v@);
        assert forall|i: int| 0 <= i < s@.len() implies s@[i] < 4_294_967_296 by {
            assert(s@.contains(s@[i]));
            vstd::seq_lib::to_multiset_contains(s@, s@[i]);
            vstd::seq_lib::to_multiset_contains(v@, s@[i]);
            let j = choose|j: int| 0 <= j < v@.len() && v@[j] == s@[i];
        }
    }
    let m = s.len() / 2;
    if s.len() % 2 == 0 {
        (s[m - 1] + s[m]) / 2
    } else {
        s[m]
    }
}

/// Sprint level, in micro-g, from the rolling mean over the trace's middle.
pub fn find_sprint_level(ts: &Vec<i64>, rolling: &Vec<Option<u64>>) -> (r: u64)
    requires
        ts@.len() == rolling@.len(),
        ts@.len() > 0,
        forall|i: int| 0 <= i < ts@.len() ==> 0 <= #[trigger] ts@[i] <= crate::types::MAX_TIME,
        crate::rolling::rolling_bounded(rolling@),
    ensures
        r == sprint_level_spec(ts@, rolling@),
        r < 4_294_967_296,
{
    let n = ts.len();
    let t0 = ts[0];
    let dur = ts[n - 1] - t0;
    let mut vals: Vec<u64> = Vec::new();
    let mut k: usize = 0;
    while k < n
        invariant
            k <= n,
            n == ts@.len(),
            n == rolling@.len(),
            t0 == ts@[0],
            dur == ts@[n - 1] - t0,
            forall|i: int| 0 <= i < ts@.len() ==> 0 <= #[trigger] ts@[i] <= crate::types::MAX_TIME,
            crate::rolling::rolling_bounded(rolling@),
            vals@ == middle_values(ts@, rolling@, t0 as int, dur as int, k as int),
            forall|i: int| 0 <= i < vals@.len() ==> vals@[i] < 4_294_967_296,
        decreases n - k,
    {
        let d = ts[k] - t0;
        if 5 * d >= dur && 10 * d <= 7 * dur {
            if let Some(v) = rolling[k] {
                assert(rolling@[k as int] matches Some(w) ==> w < 4_294_967_296);
                vals.push(v);
            }
        }
        k = k + 1;
    }
    if vals.len() < MIN_LEVEL_VALUES {
        DEFAULT_LEVEL
    } else {
        median(&vals)
    }
}

} // verus!
