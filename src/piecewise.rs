//! Three-phase piecewise linear model of the rolling mean (acceleration, fly
//! and deceleration phases), fitted by least squares over a grid of
//! breakpoints. Times are in milliseconds inside the fit; the normal
//! equations are solved by Gaussian elimination with partial pivoting on
//! integers, a 4x5 augmented matrix held row by row.
use vstd::prelude::*;
use crate::numeric::{abs, tdiv, div_trunc, lemma_tdiv_bound};

verus! {

/// Largest magnitude of a matrix entry or an unknown during elimination.
pub const ENTRY_BOUND: i128 = 1_000_000_000_000_000_000;

/// Quotient rounded toward zero, for a divisor of either sign.
pub open spec fn qdiv(a: int, b: int) -> int {
    if b < 0 {
        tdiv(-a, -b)
    } else {
        tdiv(a, b)
    }
}

proof fn lemma_qdiv_bound(a: int, b: int)
    requires
        b != 0,
    ensures
        abs(qdiv(a, b)) <= abs(a),
{
    if b < 0 {
        lemma_tdiv_bound(-a, -b);
    } else {
        lemma_tdiv_bound(a, b);
    }
}

/// Quotient of `a` by `b != 0`, rounded toward zero.
fn div_signed(a: i128, b: i128) -> (r: i128)
    requires
        b != 0,
        a > i128::MIN,
        b > i128::MIN,
    ensures
        r == qdiv(a as int, b as int),
        abs(r as int) <= abs(a as int),
{
    proof {
        lemma_qdiv_bound(a as int, b as int);
    }
    if b < 0 {
        div_trunc(-a, -b)
    } else {
        div_trunc(a, b)
    }
}

/// Index of entry (row, column) of the augmented matrix.
pub open spec fn idx(r: int, c: int) -> int {
    r * 5 + c
}

/// Every entry of the augmented matrix lies within `ENTRY_BOUND`.
pub open spec fn entries_ok(m: Seq<int>) -> bool {
    m.len() == 20 && forall|e: int| 0 <= e < 20 ==> abs(#[trigger] m[e]) <= ENTRY_BOUND
}

/// Row at or below `r` with the largest magnitude in column `col` so far
/// `best`; the first such row on ties.
pub open spec fn pivot_from(m: Seq<int>, col: int, r: int, best: int) -> int
    decreases 4 - r,
{
    if r >= 4 {
        best
    } else if abs(m[idx(r, col)]) > abs(m[idx(best, col)]) {
        pivot_from(m, col, r + 1, r)
    } else {
        pivot_from(m, col, r + 1, best)
    }
}

/// `m` with rows `a` and `b` exchanged.
pub open spec fn swap_rows(m: Seq<int>, a: int, b: int) -> Seq<int> {
    Seq::new(
        20,
        |e: int|
            if e / 5 == a {
                m[idx(b, e % 5)]
            } else if e / 5 == b {
                m[idx(a, e % 5)]
            } else {
                m[e]
            },
    )
}

/// `m` with the rows below `col` reduced by the pivot row `col`:
/// `m[r][c] - m[r][col] * m[col][c] / m[col][col]`, rounded toward zero.
pub open spec fn eliminate(m: Seq<int>, col: int) -> Seq<int> {
    Seq::new(
        20,
        |e: int|
            if e / 5 > col && e % 5 >= col {
                m[e] - qdiv(m[idx(e / 5, col)] * m[idx(col, e % 5)], m[idx(col, col)])
            } else {
                m[e]
            },
    )
}

/// Forward elimination from column `col` on; none where a pivot column is all
/// zero or an entry leaves `ENTRY_BOUND`.
pub open spec fn forward_spec(m: Seq<int>, col: int) -> Option<Seq<int>>
    decreases 4 - col,
{
    if !entries_ok(m) {
        None
    } else if col >= 4 {
        Some(m)
    } else {
        let p = pivot_from(m, col, col + 1, col);
        if m[idx(p, col)] == 0 {
            None
        } else {
            forward_spec(eliminate(swap_rows(m, col, p), col), col + 1)
        }
    }
}

/// `m[i][4] - sum of m[i][j] * x[j]` for `j` from `j0` to 3.
pub open spec fn row_rest(m: Seq<int>, x: Seq<int>, i: int, j0: int) -> int
    decreases 4 - j0,
{
    if j0 >= 4 {
        m[idx(i, 4)]
    } else {
        row_rest(m, x, i, j0 + 1) - m[idx(i, j0)] * x[j0]
    }
}

/// Back substitution on an upper-triangular `m` for rows `i` to 3; none on a
/// zero diagonal entry or an unknown beyond `ENTRY_BOUND`.
pub open spec fn back_from(m: Seq<int>, i: int) -> Option<Seq<int>>
    decreases 4 - i,
{
    if i >= 4 {
        Some(seq![0int, 0, 0, 0])
    } else {
        match back_from(m, i + 1) {
            None => None,
            Some(x) => if m[idx(i, i)] == 0 {
                None
            } else {
                let xi = qdiv(row_rest(m, x, i, i + 1), m[idx(i, i)]);
                if abs(xi) <= ENTRY_BOUND {
                    Some(x.update(i, xi))
                } else {
                    None
                }
            },
        }
    }
}

/// Solution of the augmented system `m`, or none.
pub open spec fn solve_spec(m: Seq<int>) -> Option<Seq<int>> {
    match forward_spec(m, 0) {
        None => None,
        Some(u) => back_from(u, 0),
    }
}

pub open spec fn view_of(m: Seq<i128>) -> Seq<int> {
    Seq::new(m.len(), |e: int| m[e] as int)
}

/// Tells whether every entry lies within `ENTRY_BOUND`.
fn all_entries_ok(m: &Vec<i128>) -> (r: bool)
    requires
        m@.len() == 20,
    ensures
        r == entries_ok(view_of(m@)),
{
    let mut e: usize = 0;
    while e < 20
        invariant
            e <= 20,
            m@.len() == 20,
            forall|k: int| 0 <= k < e ==> abs(#[trigger] m@[k] as int) <= ENTRY_BOUND,
        decreases 20 - e,
    {
        if m[e] > ENTRY_BOUND || m[e] < -ENTRY_BOUND {
            assert(!(abs(view_of(m@)[e as int]) <= ENTRY_BOUND));
            return false;
        }
        e = e + 1;
    }
    true
}

fn abs_i128(v: i128) -> (r: i128)
    requires
        abs(v as int) <= ENTRY_BOUND,
    ensures
        r == abs(v as int),
{
    if v < 0 {
        -v
    } else {
        v
    }
}

/// Pivot row for column `col`.
fn pivot_row(m: &Vec<i128>, col: usize) -> (r: usize)
    requires
        col < 4,
        entries_ok(view_of(m@)),
    ensures
        r == pivot_from(view_of(m@), col as int, col + 1, col as int),
        col <= r < 4,
{
    let ghost v = view_of(m@);
    let mut best: usize = col;
    let mut r: usize = col + 1;
    while r < 4
        invariant
            col < r <= 4,
            col <= best < r,
            v == view_of(m@),
            entries_ok(v),
            pivot_from(v, col as int, col + 1, col as int) == pivot_from(v, col as int, r as int, best as int),
        decreases 4 - r,
    {
        assert(abs(v[idx(r as int, col as int)]) <= ENTRY_BOUND);
        assert(abs(v[idx(best as int, col as int)]) <= ENTRY_BOUND);
        if abs_i128(m[r * 5 + col]) > abs_i128(m[best * 5 + col]) {
            best = r;
        }
        r = r + 1;
    }
    best
}

/// `m` with rows `a` and `b` exchanged.
fn swapped(m: &Vec<i128>, a: usize, b: usize) -> (r: Vec<i128>)
    requires
        m@.len() == 20,
        a < 4,
        b < 4,
    ensures
        view_of(r@) == swap_rows(view_of(m@), a as int, b as int),
        r@.len() == 20,
{
    let mut out: Vec<i128> = Vec::new();
    let mut e: usize = 0;
    while e < 20
        invariant
            e <= 20,
            m@.len() == 20,
            a < 4,
            b < 4,
            out@.len() == e,
            forall|k: int| 0 <= k < e ==> #[trigger] out@[k] as int == swap_rows(view_of(m@), a as int, b as int)[k],
        decreases 20 - e,
    {
        let row = e / 5;
        let c = e % 5;
        let v = if row == a {
            m[b * 5 + c]
        } else if row == b {
            m[a * 5 + c]
        } else {
            m[e]
        };
        out.push(v);
        e = e + 1;
    }
    assert(view_of(out@) =~= swap_rows(view_of(m@), a as int, b as int));
    out
}

/// `m` with the rows below `col` reduced by the pivot row.
fn eliminated(m: &Vec<i128>, col: usize) -> (r: Vec<i128>)
    requires
        col < 4,
        entries_ok(view_of(m@)),
        m@[idx(col as int, col as int)] != 0,
    ensures
        view_of(r@) == eliminate(view_of(m@), col as int),
        r@.len() == 20,
{
    let ghost v = view_of(m@);
    let mut out: Vec<i128> = Vec::new();
    let mut e: usize = 0;
    while e < 20
        invariant
            e <= 20,
            col < 4,
            v == view_of(m@),
            entries_ok(v),
            m@[idx(col as int, col as int)] != 0,
            out@.len() == e,
            forall|k: int| 0 <= k < e ==> #[trigger] out@[k] as int == eliminate(v, col as int)[k],
        decreases 20 - e,
    {
        let row = e / 5;
        let c = e % 5;
        if row > col && c >= col {
            let x = m[row * 5 + col];
            let y = m[col * 5 + c];
            let p = m[col * 5 + col];
            assert(abs(v[idx(row as int, col as int)]) <= ENTRY_BOUND);
            assert(abs(v[idx(col as int, c as int)]) <= ENTRY_BOUND);
            assert(abs(v[e as int]) <= ENTRY_BOUND);
            assert(abs(v[idx(col as int, col as int)]) <= ENTRY_BOUND);
            proof {
                assert(abs((x as int) * (y as int)) <= ENTRY_BOUND * ENTRY_BOUND) by (nonlinear_arith)
                    requires
                        abs(x as int) <= ENTRY_BOUND,
                        abs(y as int) <= ENTRY_BOUND,
                ;
                lemma_qdiv_bound((x as int) * (y as int), p as int);
            }
            let q = div_signed(x * y, p);
            out.push(m[e] - q);
        } else {
            out.push(m[e]);
        }
        e = e + 1;
    }
    assert(view_of(out@) =~= eliminate(v, col as int));
    out
}

proof fn lemma_back_none(m: Seq<int>, i: int)
    requires
        0 <= i <= 4,
        back_from(m, i) is None,
    ensures
        back_from(m, 0) is None,
    decreases i,
{
    if i > 0 {
        assert(back_from(m, i - 1) is None);
        lemma_back_none(m, i - 1);
    }
}

fn copied(m: &Vec<i128>) -> (r: Vec<i128>)
    ensures
        r@ == m@,
{
    let mut out: Vec<i128> = Vec::new();
    let mut e: usize = 0;
    while e < m.len()
        invariant
            e <= m@.len(),
            out@ == m@.subrange(0, e as int),
        decreases m@.len() - e,
    {
        out.push(m[e]);
        e = e + 1;
    }
    assert(m@.subrange(0, m@.len() as int) =~= m@);
    out
}

/// Solves the augmented 4x5 system `m` (see `solve_spec`).
pub fn solve_4x4(m: &Vec<i128>) -> (r: Option<Vec<i128>>)
    requires
        m@.len() == 20,
    ensures
        match r {
            Some(x) => solve_spec(view_of(m@)) == Some(view_of(x@)) && x@.len() == 4,
            None => solve_spec(view_of(m@)) is None,
        },
{
    let mut cur = copied(m);
    let mut col: usize = 0;
    while col < 4
        invariant
            col <= 4,
            cur@.len() == 20,
            forward_spec(view_of(m@), 0) == forward_spec(view_of(cur@), col as int),
        decreases 4 - col,
    {
        if !all_entries_ok(&cur) {
            return None;
        }
        let p = pivot_row(&cur, col);
        if cur[p * 5 + col] == 0 {
            return None;
        }
        let sw = swapped(&cur, col, p);
        assert(entries_ok(view_of(sw@))) by {
            assert forall|e: int| 0 <= e < 20 implies abs(#[trigger] view_of(sw@)[e]) <= ENTRY_BOUND by {
                let v = view_of(cur@);
                assert(abs(v[idx(col as int, e % 5)]) <= ENTRY_BOUND);
                assert(abs(v[idx(p as int, e % 5)]) <= ENTRY_BOUND);
                assert(abs(v[e]) <= ENTRY_BOUND);
            }
        }
        assert(view_of(sw@)[idx(col as int, col as int)] == view_of(cur@)[idx(p as int, col as int)]);
        cur = eliminated(&sw, col);
        col = col + 1;
    }
    if !all_entries_ok(&cur) {
        return None;
    }
    let ghost u = view_of(cur@);
    assert(forward_spec(view_of(m@), 0) == Some(u));
    let mut x: Vec<i128> = vec![0, 0, 0, 0];
    assert(view_of(x@) =~= seq![0int, 0, 0, 0]);
    let mut i: usize = 4;
    while i > 0
        invariant
            i <= 4,
            cur@.len() == 20,
            u == view_of(cur@),
            entries_ok(u),
            forward_spec(view_of(m@), 0) == Some(u),
            x@.len() == 4,
            back_from(u, i as int) == Some(view_of(x@)),
            forall|j: int| 0 <= j < 4 ==> abs(#[trigger] x@[j] as int) <= ENTRY_BOUND,
        decreases i,
    {
        let row = i - 1;
        let ghost xv = view_of(x@);
        let mut acc: i128 = cur[row * 5 + 4];
        assert(abs(u[idx(row as int, 4)]) <= ENTRY_BOUND);
        let mut j: usize = 4;
        while j > i
            invariant
                i <= j <= 4,
                row == i - 1,
                u == view_of(cur@),
                entries_ok(u),
                xv == view_of(x@),
                x@.len() == 4,
                forall|k: int| 0 <= k < 4 ==> abs(#[trigger] x@[k] as int) <= ENTRY_BOUND,
                acc as int == row_rest(u, xv, row as int, j as int),
                abs(acc as int) <= ENTRY_BOUND + (4 - j) * 1_000_000_000_000_000_000_000_000_000_000_000_000int,
            decreases j,
        {
            let a = cur[row * 5 + j - 1];
            let b = x[j - 1];
            assert(abs(u[idx(row as int, j - 1)]) <= ENTRY_BOUND);
            assert(abs(a as int * b as int) <= 1_000_000_000_000_000_000_000_000_000_000_000_000int) by (nonlinear_arith)
                requires
                    abs(a as int) <= 1_000_000_000_000_000_000int,
                    abs(b as int) <= 1_000_000_000_000_000_000int,
            ;
            acc = acc - a * b;
            j = j - 1;
        }
        let d = cur[row * 5 + row];
        assert(abs(u[idx(row as int, row as int)]) <= ENTRY_BOUND);
        assert(u[idx(row as int, row as int)] == d as int);
        assert(back_from(u, row + 1) == Some(xv));
        assert(acc as int == row_rest(u, xv, row as int, row + 1));
        if d == 0 {
            proof {
                assert(back_from(u, row as int) is None);
                lemma_back_none(u, row as int);
            }
            return None;
        }
        let xi = div_signed(acc, d);
        if xi > ENTRY_BOUND || xi < -ENTRY_BOUND {
            proof {
                assert(back_from(u, row as int) is None);
                lemma_back_none(u, row as int);
            }
            return None;
        }
        x.set(row, xi);
        assert(view_of(x@) =~= xv.update(row as int, xi as int));
        i = row;
    }
    Some(x)
}

/// Largest magnitude of a time, in milliseconds, inside the fit.
pub const TIME_BOUND_MS: i64 = 100_000_000;

/// Shortest acceleration phase, in milliseconds.
pub const MIN_ACCEL_PHASE_MS: i64 = 500;

/// Longest acceleration phase, in milliseconds.
pub const MAX_ACCEL_PHASE_MS: i64 = 8_000;

/// Shortest fly phase, in milliseconds.
pub const MIN_FLY_PHASE_MS: i64 = 3_000;

/// Shortest deceleration phase, and the window after `bp2` of the drop check, in milliseconds.
pub const MIN_DECEL_PHASE_MS: i64 = 1_000;

/// Coarse and fine grid steps, and the half-width of the fine grid, in milliseconds.
pub const COARSE_STEP_MS: i64 = 500;

pub const FINE_STEP_MS: i64 = 100;

pub const FINE_HALF_WIDTH_MS: i64 = 1_000;

/// Fewest points the fit needs.
pub const MIN_FIT_POINTS: usize = 20;

/// Fewest points of a phase whose mean the drop check uses.
pub const MIN_PHASE_POINTS: i64 = 3;

/// Deceleration slope, in micro-g per second, at or below which the fit is
/// of high confidence (-0.1 g/s).
pub const HIGH_CONFIDENCE_SLOPE: i128 = -100_000;

/// Scale of the right-hand side: the unknowns come out as 1000 times the
/// intercept (micro-g) and as slopes in micro-g per second.
pub const RHS_SCALE: i128 = 1_000;

/// Points the fit accepts: times in milliseconds and values in micro-g.
pub open spec fn points_ok(ts: Seq<i64>, ys: Seq<u64>) -> bool {
    &&& ts.len() == ys.len()
    &&& ts.len() <= crate::types::MAX_SAMPLES
    &&& forall|i: int| 0 <= i < ts.len() ==> -TIME_BOUND_MS <= #[trigger] ts[i] <= TIME_BOUND_MS
    &&& forall|i: int| 0 <= i < ys.len() ==> #[trigger] ys[i] < 4_294_967_296
}

/// Column `c` of the design row at time `t`: the intercept, then the time
/// spent in each of the three phases.
pub open spec fn design(t: int, bp1: int, bp2: int, c: int) -> int {
    if c == 0 {
        1
    } else if c == 1 {
        if t <= bp1 {
            t
        } else {
            bp1
        }
    } else if c == 2 {
        if t <= bp1 {
            0
        } else if t <= bp2 {
            t - bp1
        } else {
            bp2 - bp1
        }
    } else if t <= bp2 {
        0
    } else {
        t - bp2
    }
}

/// Contribution of one point to entry `e` of the augmented normal equations.
pub open spec fn aug_term(t: int, y: int, bp1: int, bp2: int, e: int) -> int {
    let r = e / 5;
    let c = e % 5;
    if c < 4 {
        design(t, bp1, bp2, r) * design(t, bp1, bp2, c)
    } else {
        design(t, bp1, bp2, r) * (y * RHS_SCALE)
    }
}

pub open spec fn aug_sum(ts: Seq<i64>, ys: Seq<u64>, bp1: int, bp2: int, e: int, k: int) -> int
    decreases k,
{
    if k <= 0 {
        0
    } else {
        aug_sum(ts, ys, bp1, bp2, e, k - 1) + aug_term(ts[k - 1] as int, ys[k - 1] as int, bp1, bp2, e)
    }
}

/// The augmented normal equations `[A^T A | RHS_SCALE * A^T y]` of the model.
pub open spec fn normal_spec(ts: Seq<i64>, ys: Seq<u64>, bp1: int, bp2: int) -> Seq<int> {
    Seq::new(20, |e: int| aug_sum(ts, ys, bp1, bp2, e, ts.len() as int))
}

pub open spec fn sum_sq_upto(ys: Seq<u64>, k: int) -> int
    decreases k,
{
    if k <= 0 {
        0
    } else {
        sum_sq_upto(ys, k - 1) + ys[k - 1] * ys[k - 1]
    }
}

/// The squared residual of solution `x`, times `RHS_SCALE` squared.
pub open spec fn residual_spec(ts: Seq<i64>, ys: Seq<u64>, bp1: int, bp2: int, x: Seq<int>) -> int {
    let m = normal_spec(ts, ys, bp1, bp2);
    RHS_SCALE * RHS_SCALE * sum_sq_upto(ys, ys.len() as int) - (x[0] * m[idx(0, 4)] + x[1] * m[idx(1, 4)]
        + x[2] * m[idx(2, 4)] + x[3] * m[idx(3, 4)])
}

/// Sum and count of the values whose time lies in `[from, to]`, over the first `k` points.
pub open spec fn range_stats(ts: Seq<i64>, ys: Seq<u64>, from: int, to: int, k: int) -> (int, int)
    decreases k,
{
    if k <= 0 {
        (0, 0)
    } else {
        let (s, c) = range_stats(ts, ys, from, to, k - 1);
        if from <= ts[k - 1] <= to {
            (s + ys[k - 1], c + 1)
        } else {
            (s, c)
        }
    }
}

/// The mean over the second after `bp2` (cut at the last point) is at most
/// 92% of the mean over the fly phase, both over at least three points.
pub open spec fn drop_spec(ts: Seq<i64>, ys: Seq<u64>, bp1: int, bp2: int) -> bool {
    let n = ts.len() as int;
    let end = ts[n - 1] as int;
    let de = if end < bp2 + MIN_DECEL_PHASE_MS {
        end
    } else {
        bp2 + MIN_DECEL_PHASE_MS
    };
    let (fs, fc) = range_stats(ts, ys, bp1, bp2, n);
    let (ds, dc) = range_stats(ts, ys, bp2, de, n);
    &&& n > 0
    &&& bp1 < bp2
    &&& fc >= MIN_PHASE_POINTS
    &&& bp2 < de
    &&& dc >= MIN_PHASE_POINTS
    &&& 100 * ds * fc <= 92 * fs * dc
}

/// Best (residual, bp1, bp2) over all accepted pairs, and over those that
/// also pass the drop check.
pub type GridState = (Option<(int, int, int)>, Option<(int, int, int)>);

/// The state after weighing the pair (`bp1`, `bp2`): a pair is accepted when
/// its fit exists with `s1 >= 0` and `s3 <= 0`; a strictly lower residual
/// replaces the best so far, so the first of equal residuals stays.
pub open spec fn consider(ts: Seq<i64>, ys: Seq<u64>, bp1: int, bp2: int, st: GridState) -> GridState {
    match solve_spec(normal_spec(ts, ys, bp1, bp2)) {
        Some(x) => if x[1] >= 0 && x[3] <= 0 {
            let r = residual_spec(ts, ys, bp1, bp2, x);
            let best = match st.0 {
                Some(b) => if r < b.0 {
                    Some((r, bp1, bp2))
                } else {
                    st.0
                },
                None => Some((r, bp1, bp2)),
            };
            let drop = if drop_spec(ts, ys, bp1, bp2) {
                match st.1 {
                    Some(d) => if r < d.0 {
                        Some((r, bp1, bp2))
                    } else {
                        st.1
                    },
                    None => Some((r, bp1, bp2)),
                }
            } else {
                st.1
            };
            (best, drop)
        } else {
            st
        },
        None => st,
    }
}

/// Weighs `bp2` from `bp2` to `bp2_max` by `step` for one `bp1`.
pub open spec fn scan_bp2(
    ts: Seq<i64>,
    ys: Seq<u64>,
    bp1: int,
    bp2: int,
    bp2_max: int,
    step: int,
    st: GridState,
) -> GridState
    decreases bp2_max + step - bp2,
{
    if step <= 0 || bp2 > bp2_max {
        st
    } else {
        scan_bp2(ts, ys, bp1, bp2 + step, bp2_max, step, consider(ts, ys, bp1, bp2, st))
    }
}

/// Weighs `bp1` from `bp1` to `bp1_max` by `step`, each with `bp2` from
/// `max(bp2_min, bp1 + MIN_FLY_PHASE_MS)` to `bp2_max`.
pub open spec fn scan_bp1(
    ts: Seq<i64>,
    ys: Seq<u64>,
    bp1: int,
    bp1_max: int,
    bp2_min: int,
    bp2_max: int,
    step: int,
    st: GridState,
) -> GridState
    decreases bp1_max + step - bp1,
{
    if step <= 0 || bp1 > bp1_max {
        st
    } else {
        let lo = if bp2_min < bp1 + MIN_FLY_PHASE_MS {
            bp1 + MIN_FLY_PHASE_MS
        } else {
            bp2_min
        };
        scan_bp1(ts, ys, bp1 + step, bp1_max, bp2_min, bp2_max, step, scan_bp2(ts, ys, bp1, lo, bp2_max, step, st))
    }
}

/// The chosen breakpoints of a grid: none when no pair is accepted; else the
/// best pair that passes the drop check, or the best accepted pair when none does.
pub open spec fn grid_spec(
    ts: Seq<i64>,
    ys: Seq<u64>,
    bp1_min: int,
    bp1_max: int,
    bp2_min: int,
    bp2_max: int,
    step: int,
) -> Option<(int, int)> {
    let st = scan_bp1(ts, ys, bp1_min, bp1_max, bp2_min, bp2_max, step, (None, None));
    match st.0 {
        None => None,
        Some(b) => match st.1 {
            Some(d) => Some((d.1, d.2)),
            None => Some((b.1, b.2)),
        },
    }
}

pub open spec fn bp_ok(bp: int) -> bool {
    -TIME_BOUND_MS <= bp <= TIME_BOUND_MS
}

proof fn lemma_term_bound(t: int, y: int, bp1: int, bp2: int, e: int)
    requires
        -TIME_BOUND_MS <= t <= TIME_BOUND_MS,
        0 <= y < 4_294_967_296,
        bp_ok(bp1),
        bp_ok(bp2),
        0 <= e < 20,
    ensures
        abs(aug_term(t, y, bp1, bp2, e)) <= 1_000_000_000_000_000_000_000,
{
    let r = e / 5;
    let c = e % 5;
    let dr = design(t, bp1, bp2, r);
    let dc = design(t, bp1, bp2, c);
    assert(abs(dr) <= 200_000_000);
    assert(abs(dc) <= 200_000_000);
    if c < 4 {
        assert(abs(dr * dc) <= 40_000_000_000_000_000) by (nonlinear_arith)
            requires
                abs(dr) <= 200_000_000,
                abs(dc) <= 200_000_000,
        ;
    } else {
        assert(abs(dr * (y * 1000)) <= 1_000_000_000_000_000_000_000) by (nonlinear_arith)
            requires
                abs(dr) <= 200_000_000,
                0 <= y < 4_294_967_296,
        ;
    }
}

fn design_exec(t: i64, bp1: i64, bp2: i64, c: usize) -> (r: i128)
    requires
        -TIME_BOUND_MS <= t <= TIME_BOUND_MS,
        bp_ok(bp1 as int),
        bp_ok(bp2 as int),
        c < 5,
    ensures
        r == design(t as int, bp1 as int, bp2 as int, c as int),
{
    let (t, bp1, bp2) = (t as i128, bp1 as i128, bp2 as i128);
    if c == 0 {
        1
    } else if c == 1 {
        if t <= bp1 {
            t
        } else {
            bp1
        }
    } else if c == 2 {
        if t <= bp1 {
            0
        } else if t <= bp2 {
            t - bp1
        } else {
            bp2 - bp1
        }
    } else if t <= bp2 {
        0
    } else {
        t - bp2
    }
}

fn term_exec(t: i64, y: u64, bp1: i64, bp2: i64, e: usize) -> (r: i128)
    requires
        -TIME_BOUND_MS <= t <= TIME_BOUND_MS,
        y < 4_294_967_296,
        bp_ok(bp1 as int),
        bp_ok(bp2 as int),
        e < 20,
    ensures
        r == aug_term(t as int, y as int, bp1 as int, bp2 as int, e as int),
{
    proof {
        lemma_term_bound(t as int, y as int, bp1 as int, bp2 as int, e as int);
    }
    let dr = design_exec(t, bp1, bp2, e / 5);
    if e % 5 < 4 {
        let dc = design_exec(t, bp1, bp2, e % 5);
        assert(abs(dr * dc) <= 40_000_000_000_000_000) by (nonlinear_arith)
            requires
                abs(dr as int) <= 200_000_000,
                abs(dc as int) <= 200_000_000,
        ;
        dr * dc
    } else {
        assert(abs(dr * (y as int * 1000)) <= 1_000_000_000_000_000_000_000) by (nonlinear_arith)
            requires
                abs(dr as int) <= 200_000_000,
                0 <= y < 4_294_967_296,
        ;
        dr * ((y as i128) * RHS_SCALE)
    }
}

/// The augmented normal equations of the model with breakpoints `bp1`, `bp2`.
fn normal_matrix(ts: &Vec<i64>, ys: &Vec<u64>, bp1: i64, bp2: i64) -> (m: Vec<i128>)
    requires
        points_ok(ts@, ys@),
        bp_ok(bp1 as int),
        bp_ok(bp2 as int),
    ensures
        m@.len() == 20,
        view_of(m@) == normal_spec(ts@, ys@, bp1 as int, bp2 as int),
{
    let mut acc: Vec<i128> = Vec::new();
    let mut e: usize = 0;
    while e < 20
        invariant
            e <= 20,
            acc@.len() == e,
            forall|f: int| 0 <= f < e ==> #[trigger] acc@[f] == 0,
        decreases 20 - e,
    {
        acc.push(0);
        e = e + 1;
    }
    let n = ts.len();
    let mut k: usize = 0;
    while k < n
        invariant
            k <= n,
            n == ts@.len(),
            points_ok(ts@, ys@),
            bp_ok(bp1 as int),
            bp_ok(bp2 as int),
            acc@.len() == 20,
            forall|f: int| 0 <= f < 20 ==> #[trigger] acc@[f] as int == aug_sum(ts@, ys@, bp1 as int, bp2 as int, f, k as int),
            forall|f: int| 0 <= f < 20 ==> abs(#[trigger] acc@[f] as int) <= k * 1_000_000_000_000_000_000_000,
        decreases n - k,
    {
        let t = ts[k];
        let y = ys[k];
        let mut e: usize = 0;
        while e < 20
            invariant
                e <= 20,
                k < n,
                n == ts@.len(),
                points_ok(ts@, ys@),
                t == ts@[k as int],
                y == ys@[k as int],
                -TIME_BOUND_MS <= t <= TIME_BOUND_MS,
                y < 4_294_967_296,
                bp_ok(bp1 as int),
                bp_ok(bp2 as int),
                acc@.len() == 20,
                forall|f: int| 0 <= f < e ==> #[trigger] acc@[f] as int == aug_sum(ts@, ys@, bp1 as int, bp2 as int, f, k + 1),
                forall|f: int| e <= f < 20 ==> #[trigger] acc@[f] as int == aug_sum(ts@, ys@, bp1 as int, bp2 as int, f, k as int),
                forall|f: int| 0 <= f < e ==> abs(#[trigger] acc@[f] as int) <= (k + 1) * 1_000_000_000_000_000_000_000,
                forall|f: int| e <= f < 20 ==> abs(#[trigger] acc@[f] as int) <= k * 1_000_000_000_000_000_000_000,
            decreases 20 - e,
        {
            let v = term_exec(t, y, bp1, bp2, e);
            proof {
                lemma_term_bound(t as int, y as int, bp1 as int, bp2 as int, e as int);
                assert((k + 1) * 1_000_000_000_000_000_000_000 <= 10_000_001 * 1_000_000_000_000_000_000_000int)
                    by (nonlinear_arith)
                    requires
                        k + 1 <= 10_000_001,
                ;
            }
            let nv = acc[e] + v;
            acc.set(e, nv);
            e = e + 1;
        }
        proof {
            assert forall|f: int| 0 <= f < 20 implies abs(#[trigger] acc@[f] as int) <= (k + 1) * 1_000_000_000_000_000_000_000 by {}
        }
        k = k + 1;
    }
    assert(view_of(acc@) =~= normal_spec(ts@, ys@, bp1 as int, bp2 as int));
    acc
}

fn sum_sq_values(ys: &Vec<u64>) -> (r: i128)
    requires
        ys@.len() <= crate::types::MAX_SAMPLES,
        forall|i: int| 0 <= i < ys@.len() ==> #[trigger] ys@[i] < 4_294_967_296,
    ensures
        r == sum_sq_upto(ys@, ys@.len() as int),
        0 <= r <= 200_000_000_000_000_000_000_000_000,
{
    let mut acc: i128 = 0;
    let mut k: usize = 0;
    while k < ys.len()
        invariant
            k <= ys@.len(),
            ys@.len() <= crate::types::MAX_SAMPLES,
            forall|i: int| 0 <= i < ys@.len() ==> #[trigger] ys@[i] < 4_294_967_296,
            acc == sum_sq_upto(ys@, k as int),
            0 <= acc <= k * 20_000_000_000_000_000_000,
        decreases ys@.len() - k,
    {
        let y = ys[k] as i128;
        assert(0 <= y * y <= 20_000_000_000_000_000_000) by (nonlinear_arith)
            requires
                0 <= y < 4_294_967_296,
        ;
        acc = acc + y * y;
        k = k + 1;
    }
    assert(k * 20_000_000_000_000_000_000 <= 10_000_000 * 20_000_000_000_000_000_000int) by (nonlinear_arith)
        requires
            k <= 10_000_000,
    ;
    acc
}

proof fn lemma_solved_entries_ok(m: Seq<int>)
    requires
        solve_spec(m) is Some,
    ensures
        entries_ok(m),
{
    if !entries_ok(m) {
        assert(forward_spec(m, 0) is None);
    }
}

proof fn lemma_back_bounded(m: Seq<int>, i: int)
    requires
        0 <= i <= 4,
        back_from(m, i) is Some,
    ensures
        back_from(m, i).unwrap().len() == 4,
        forall|j: int| 0 <= j < 4 ==> abs(#[trigger] back_from(m, i).unwrap()[j]) <= ENTRY_BOUND,
    decreases 4 - i,
{
    if i < 4 {
        lemma_back_bounded(m, i + 1);
    }
}

/// Sum and count of the values whose time lies in `[from, to]`.
fn range_stats_exec(ts: &Vec<i64>, ys: &Vec<u64>, from: i64, to: i64) -> (r: (i128, i128))
    requires
        points_ok(ts@, ys@),
    ensures
        (r.0 as int, r.1 as int) == range_stats(ts@, ys@, from as int, to as int, ts@.len() as int),
        0 <= r.0 <= 50_000_000_000_000_000,
        0 <= r.1 <= 10_000_000,
{
    let mut sum: i128 = 0;
    let mut count: i128 = 0;
    let mut k: usize = 0;
    while k < ts.len()
        invariant
            k <= ts@.len(),
            points_ok(ts@, ys@),
            (sum as int, count as int) == range_stats(ts@, ys@, from as int, to as int, k as int),
            0 <= sum <= k * 4_294_967_296,
            0 <= count <= k,
        decreases ts@.len() - k,
    {
        if from <= ts[k] && ts[k] <= to {
            sum = sum + ys[k] as i128;
            count = count + 1;
        }
        k = k + 1;
    }
    assert(k * 4_294_967_296 <= 10_000_000 * 4_294_967_296int) by (nonlinear_arith)
        requires
            k <= 10_000_000,
    ;
    (sum, count)
}

/// The drop check of `drop_spec`.
fn meets_decel_drop(ts: &Vec<i64>, ys: &Vec<u64>, bp1: i64, bp2: i64) -> (r: bool)
    requires
        points_ok(ts@, ys@),
        bp_ok(bp2 as int),
    ensures
        r == drop_spec(ts@, ys@, bp1 as int, bp2 as int),
{
    let n = ts.len();
    if n == 0 {
        return false;
    }
    let end = ts[n - 1];
    let de: i64 = if end < bp2 + MIN_DECEL_PHASE_MS {
        end
    } else {
        bp2 + MIN_DECEL_PHASE_MS
    };
    let (fs, fc) = range_stats_exec(ts, ys, bp1, bp2);
    let (ds, dc) = range_stats_exec(ts, ys, bp2, de);
    if !(bp1 < bp2 && fc >= MIN_PHASE_POINTS as i128 && bp2 < de && dc >= MIN_PHASE_POINTS as i128) {
        return false;
    }
    assert(0 <= 100 * (ds as int) * (fc as int) <= 100 * 50_000_000_000_000_000 * 10_000_000int) by (nonlinear_arith)
        requires
            0 <= ds <= 50_000_000_000_000_000int,
            0 <= fc <= 10_000_000int,
    ;
    assert(0 <= 92 * (fs as int) * (dc as int) <= 100 * 50_000_000_000_000_000 * 10_000_000int) by (nonlinear_arith)
        requires
            0 <= fs <= 50_000_000_000_000_000int,
            0 <= dc <= 10_000_000int,
    ;
    100 * ds * fc <= 92 * fs * dc
}

/// A grid state as held by the search.
pub type GridStateExec = (Option<(i128, i64, i64)>, Option<(i128, i64, i64)>);

pub open spec fn best_view(b: Option<(i128, i64, i64)>) -> Option<(int, int, int)> {
    match b {
        Some(v) => Some((v.0 as int, v.1 as int, v.2 as int)),
        None => None,
    }
}

pub open spec fn state_view(st: GridStateExec) -> GridState {
    (best_view(st.0), best_view(st.1))
}

/// Every breakpoint held by `st` lies within the time bound.
pub open spec fn state_ok(st: GridStateExec) -> bool {
    &&& (st.0 matches Some(b) ==> bp_ok(b.1 as int) && bp_ok(b.2 as int))
    &&& (st.1 matches Some(d) ==> bp_ok(d.1 as int) && bp_ok(d.2 as int))
}

/// Weighs the pair (`bp1`, `bp2`) (see `consider`).
fn consider_exec(ts: &Vec<i64>, ys: &Vec<u64>, bb: i128, bp1: i64, bp2: i64, st: GridStateExec) -> (r: GridStateExec)
    requires
        points_ok(ts@, ys@),
        bb == sum_sq_upto(ys@, ys@.len() as int),
        0 <= bb <= 200_000_000_000_000_000_000_000_000,
        bp_ok(bp1 as int),
        bp_ok(bp2 as int),
        state_ok(st),
    ensures
        state_view(r) == consider(ts@, ys@, bp1 as int, bp2 as int, state_view(st)),
        state_ok(r),
{
    let m = normal_matrix(ts, ys, bp1, bp2);
    match solve_4x4(&m) {
        None => st,
        Some(x) => {
            let ghost xv = view_of(x@);
            proof {
                lemma_solved_entries_ok(view_of(m@));
                let u = forward_spec(view_of(m@), 0).unwrap();
                assert(back_from(u, 0) == Some(xv));
                lemma_back_bounded(u, 0);
                assert forall|j: int| 0 <= j < 4 implies abs(#[trigger] x@[j] as int) <= ENTRY_BOUND by {
                    assert(xv[j] == x@[j] as int);
                }
            }
            if x[1] >= 0 && x[3] <= 0 {
                let mut dot: i128 = 0;
                let mut i: usize = 0;
                while i < 4
                    invariant
                        i <= 4,
                        x@.len() == 4,
                        m@.len() == 20,
                        entries_ok(view_of(m@)),
                        forall|j: int| 0 <= j < 4 ==> abs(#[trigger] x@[j] as int) <= ENTRY_BOUND,
                        abs(dot as int) <= i * 1_000_000_000_000_000_000_000_000_000_000_000_000int,
                        dot as int == (if i >= 1 { xv[0] * view_of(m@)[idx(0, 4)] } else { 0 }) + (if i >= 2 {
                            xv[1] * view_of(m@)[idx(1, 4)]
                        } else {
                            0
                        }) + (if i >= 3 { xv[2] * view_of(m@)[idx(2, 4)] } else { 0 }) + (if i >= 4 {
                            xv[3] * view_of(m@)[idx(3, 4)]
                        } else {
                            0
                        }),
                        xv == view_of(x@),
                    decreases 4 - i,
                {
                    let a = x[i];
                    let b = m[i * 5 + 4];
                    assert(abs(view_of(m@)[idx(i as int, 4)]) <= ENTRY_BOUND);
                    assert(abs(a as int * b as int) <= 1_000_000_000_000_000_000_000_000_000_000_000_000int)
                        by (nonlinear_arith)
                        requires
                            abs(a as int) <= 1_000_000_000_000_000_000int,
                            abs(b as int) <= 1_000_000_000_000_000_000int,
                    ;
                    dot = dot + a * b;
                    i = i + 1;
                }
                assert(abs(dot as int) <= 4_000_000_000_000_000_000_000_000_000_000_000_000int);
                let res: i128 = RHS_SCALE * RHS_SCALE * bb - dot;
                assert(res as int == residual_spec(ts@, ys@, bp1 as int, bp2 as int, xv));
                let best = match st.0 {
                    Some(b) => if res < b.0 {
                        Some((res, bp1, bp2))
                    } else {
                        st.0
                    },
                    None => Some((res, bp1, bp2)),
                };
                let drop = if meets_decel_drop(ts, ys, bp1, bp2) {
                    match st.1 {
                        Some(d) => if res < d.0 {
                            Some((res, bp1, bp2))
                        } else {
                            st.1
                        },
                        None => Some((res, bp1, bp2)),
                    }
                } else {
                    st.1
                };
                (best, drop)
            } else {
                st
            }
        },
    }
}

/// Grid search over breakpoint pairs (see `grid_spec`).
pub fn grid_search(
    ts: &Vec<i64>,
    ys: &Vec<u64>,
    bp1_min: i64,
    bp1_max: i64,
    bp2_min: i64,
    bp2_max: i64,
    step: i64,
) -> (r: Option<(i64, i64)>)
    requires
        points_ok(ts@, ys@),
        bp_ok(bp1_min as int),
        bp_ok(bp1_max as int),
        bp_ok(bp2_min as int),
        bp_ok(bp2_max as int),
        0 < step <= 1_000_000,
    ensures
        match r {
            Some(p) => grid_spec(ts@, ys@, bp1_min as int, bp1_max as int, bp2_min as int, bp2_max as int, step as int)
                == Some((p.0 as int, p.1 as int)) && bp_ok(p.0 as int) && bp_ok(p.1 as int),
            None => grid_spec(ts@, ys@, bp1_min as int, bp1_max as int, bp2_min as int, bp2_max as int, step as int) is None,
        },
{
    let bb = sum_sq_values(ys);
    let mut st: GridStateExec = (None, None);
    let ghost init: GridState = (None, None);
    assert(state_view(st) == init);
    let mut bp1 = bp1_min;
    while bp1 <= bp1_max
        invariant
            points_ok(ts@, ys@),
            bb == sum_sq_upto(ys@, ys@.len() as int),
            0 <= bb <= 200_000_000_000_000_000_000_000_000,
            bp_ok(bp1_min as int),
            bp_ok(bp1_max as int),
            bp_ok(bp2_min as int),
            bp_ok(bp2_max as int),
            0 < step <= 1_000_000,
            bp1_min <= bp1,
            bp1 == bp1_min || bp1 <= bp1_max + step,
            state_ok(st),
            scan_bp1(ts@, ys@, bp1_min as int, bp1_max as int, bp2_min as int, bp2_max as int, step as int, init)
                == scan_bp1(ts@, ys@, bp1 as int, bp1_max as int, bp2_min as int, bp2_max as int, step as int, state_view(st)),
        decreases bp1_max + step - bp1,
    {
        let lo: i64 = if bp2_min < bp1 + MIN_FLY_PHASE_MS {
            bp1 + MIN_FLY_PHASE_MS
        } else {
            bp2_min
        };
        let ghost st0 = state_view(st);
        let mut bp2 = lo;
        while bp2 <= bp2_max
            invariant
                points_ok(ts@, ys@),
                bb == sum_sq_upto(ys@, ys@.len() as int),
                0 <= bb <= 200_000_000_000_000_000_000_000_000,
                bp_ok(bp1 as int),
                bp_ok(bp2_min as int),
                bp_ok(bp2_max as int),
                0 < step <= 1_000_000,
                lo <= bp2,
                bp2 == lo || bp2 <= bp2_max + step,
                lo <= 100_003_000,
                lo >= bp2_min,
                state_ok(st),
                scan_bp2(ts@, ys@, bp1 as int, lo as int, bp2_max as int, step as int, st0)
                    == scan_bp2(ts@, ys@, bp1 as int, bp2 as int, bp2_max as int, step as int, state_view(st)),
            decreases bp2_max + step - bp2,
        {
            st = consider_exec(ts, ys, bb, bp1, bp2, st);
            bp2 = bp2 + step;
        }
        bp1 = bp1 + step;
    }
    match st.0 {
        None => None,
        Some(b) => match st.1 {
            Some(d) => Some((d.1, d.2)),
            None => Some((b.1, b.2)),
        },
    }
}

/// How well the deceleration phase shows in the fit.
#[derive(Clone, Copy, Debug, PartialEq, Eq)]
pub enum Confidence {
    High,
    Medium,
}

impl Confidence {
    /// The label: "high" or "medium".
    pub fn label(&self) -> (r: &'static str)
        ensures
            *self == Confidence::High ==> r@ == "high"@,
            *self == Confidence::Medium ==> r@ == "medium"@,
    {
        match self {
            Confidence::High => "high",
            Confidence::Medium => "medium",
        }
    }
}

/// A fitted three-phase model: breakpoints in microseconds from sprint
/// start, intercept in micro-g, slopes in micro-g per second, the fly-phase
/// level in micro-g, and the confidence.
#[derive(Clone, Copy, Debug, PartialEq, Eq)]
pub struct PiecewiseFit {
    pub bp1: i64,
    pub bp2: i64,
    pub y0: i128,
    pub s1: i128,
    pub s2: i128,
    pub s3: i128,
    pub sprint_level: i128,
    pub confidence: Confidence,
}

/// The model for breakpoints `bp1`, `bp2` (milliseconds) and unknowns `x`.
pub open spec fn fit_result(bp1: int, bp2: int, x: Seq<int>) -> PiecewiseFit {
    PiecewiseFit {
        bp1: (bp1 * 1000) as i64,
        bp2: (bp2 * 1000) as i64,
        y0: tdiv(x[0], RHS_SCALE as int) as i128,
        s1: x[1] as i128,
        s2: x[2] as i128,
        s3: x[3] as i128,
        sprint_level: tdiv(2 * (x[0] + x[1] * bp1) + x[2] * (bp2 - bp1), 2 * RHS_SCALE) as i128,
        confidence: if x[3] <= HIGH_CONFIDENCE_SLOPE {
            Confidence::High
        } else {
            Confidence::Medium
        },
    }
}

/// Every `stride`-th point among the first `k` whose rolling mean is
/// defined, times in milliseconds.
pub open spec fn down_upto(t: Seq<i64>, rolling: Seq<Option<u64>>, stride: int, k: int) -> (Seq<i64>, Seq<u64>)
    decreases k,
{
    if k <= 0 {
        (Seq::empty(), Seq::empty())
    } else {
        let (a, b) = down_upto(t, rolling, stride, k - 1);
        if (k - 1) % stride == 0 {
            match rolling[k - 1] {
                Some(v) => (a.push(tdiv(t[k - 1] as int, 1000) as i64), b.push(v)),
                None => (a, b),
            }
        } else {
            (a, b)
        }
    }
}

pub open spec fn min_int(a: int, b: int) -> int {
    if a < b {
        a
    } else {
        b
    }
}

pub open spec fn max_int(a: int, b: int) -> int {
    if a > b {
        a
    } else {
        b
    }
}

/// The piecewise fit of a rolling mean over times from sprint start: none
/// with fewer than `MIN_FIT_POINTS` points, a span not beyond the minimum
/// sprint time plus the shortest deceleration, empty breakpoint ranges, or
/// no accepted pair; else a coarse grid, a fine grid around its choice
/// (falling back to it), and the model at the final pair.
pub open spec fn fit_spec(t: Seq<i64>, rolling: Seq<Option<u64>>, stride: int, distance: u32) -> Option<PiecewiseFit> {
    let (ts, ys) = down_upto(t, rolling, stride, t.len() as int);
    let n = ts.len() as int;
    if n < MIN_FIT_POINTS {
        None
    } else {
        let dur = ts[n - 1] as int;
        let ms = crate::detection::min_sprint_time_spec(distance) / 1000;
        let bp1_max = min_int(MAX_ACCEL_PHASE_MS as int, dur - MIN_FLY_PHASE_MS - MIN_DECEL_PHASE_MS);
        let bp2_max = dur - MIN_DECEL_PHASE_MS;
        if dur <= ms + MIN_DECEL_PHASE_MS || MIN_ACCEL_PHASE_MS >= bp1_max || ms >= bp2_max {
            None
        } else {
            match grid_spec(ts, ys, MIN_ACCEL_PHASE_MS as int, bp1_max, ms, bp2_max, COARSE_STEP_MS as int) {
                None => None,
                Some(c) => {
                    let fine = grid_spec(
                        ts,
                        ys,
                        max_int(MIN_ACCEL_PHASE_MS as int, c.0 - FINE_HALF_WIDTH_MS),
                        min_int(bp1_max, c.0 + FINE_HALF_WIDTH_MS),
                        max_int(ms, c.1 - FINE_HALF_WIDTH_MS),
                        min_int(bp2_max, c.1 + FINE_HALF_WIDTH_MS),
                        FINE_STEP_MS as int,
                    );
                    let f = match fine {
                        Some(p) => p,
                        None => c,
                    };
                    match solve_spec(normal_spec(ts, ys, f.0, f.1)) {
                        None => None,
                        Some(x) => Some(fit_result(f.0, f.1, x)),
                    }
                },
            }
        }
    }
}

/// Every `stride`-th point whose rolling mean is defined, times in milliseconds.
pub fn downsample(t_rel: &Vec<i64>, rolling: &Vec<Option<u64>>, stride: usize) -> (r: (Vec<i64>, Vec<u64>))
    requires
        stride >= 1,
        t_rel@.len() == rolling@.len(),
        t_rel@.len() <= crate::types::MAX_SAMPLES,
        forall|i: int| 0 <= i < t_rel@.len() ==> abs(#[trigger] t_rel@[i] as int) <= crate::types::MAX_TIME,
        crate::rolling::rolling_bounded(rolling@),
    ensures
        (r.0@, r.1@) == down_upto(t_rel@, rolling@, stride as int, t_rel@.len() as int),
        points_ok(r.0@, r.1@),
{
    let mut ts: Vec<i64> = Vec::new();
    let mut ys: Vec<u64> = Vec::new();
    let mut k: usize = 0;
    while k < t_rel.len()
        invariant
            k <= t_rel@.len(),
            stride >= 1,
            t_rel@.len() == rolling@.len(),
            t_rel@.len() <= crate::types::MAX_SAMPLES,
            forall|i: int| 0 <= i < t_rel@.len() ==> abs(#[trigger] t_rel@[i] as int) <= crate::types::MAX_TIME,
            crate::rolling::rolling_bounded(rolling@),
            (ts@, ys@) == down_upto(t_rel@, rolling@, stride as int, k as int),
            ts@.len() <= k,
            points_ok(ts@, ys@),
        decreases t_rel@.len() - k,
    {
        if k % stride == 0 {
            if let Some(v) = rolling[k] {
                assert(rolling@[k as int] matches Some(w) ==> w < 4_294_967_296);
                assert(abs(t_rel@[k as int] as int) <= crate::types::MAX_TIME);
                proof {
                    lemma_tdiv_bound(t_rel@[k as int] as int, 1000);
                }
                let tm = div_trunc(t_rel[k] as i128, 1000);
                ts.push(tm as i64);
                ys.push(v);
            }
        }
        k = k + 1;
    }
    (ts, ys)
}

/// Three-phase piecewise linear fit of the rolling mean `rolling` at times
/// `t_rel` (microseconds from sprint start), sampled every `stride` samples,
/// for a sprint of `distance` metres (see `fit_spec`).
pub fn fit_piecewise(t_rel: &Vec<i64>, rolling: &Vec<Option<u64>>, stride: usize, distance: u32) -> (r: Option<PiecewiseFit>)
    requires
        stride >= 1,
        t_rel@.len() == rolling@.len(),
        t_rel@.len() <= crate::types::MAX_SAMPLES,
        forall|i: int| 0 <= i < t_rel@.len() ==> abs(#[trigger] t_rel@[i] as int) <= crate::types::MAX_TIME,
        crate::rolling::rolling_bounded(rolling@),
    ensures
        r == fit_spec(t_rel@, rolling@, stride as int, distance),
{
    let (ts, ys) = downsample(t_rel, rolling, stride);
    let n = ts.len();
    if n < MIN_FIT_POINTS {
        return None;
    }
    let dur = ts[n - 1];
    assert(-TIME_BOUND_MS <= ts@[n - 1] <= TIME_BOUND_MS);
    let ms: i64 = crate::detection::min_sprint_time(distance) / 1000;
    let bp1_max: i64 = if MAX_ACCEL_PHASE_MS < dur - MIN_FLY_PHASE_MS - MIN_DECEL_PHASE_MS {
        MAX_ACCEL_PHASE_MS
    } else {
        dur - MIN_FLY_PHASE_MS - MIN_DECEL_PHASE_MS
    };
    let bp2_max: i64 = dur - MIN_DECEL_PHASE_MS;
    if dur <= ms + MIN_DECEL_PHASE_MS || MIN_ACCEL_PHASE_MS >= bp1_max || ms >= bp2_max {
        return None;
    }
    let coarse = grid_search(&ts, &ys, MIN_ACCEL_PHASE_MS, bp1_max, ms, bp2_max, COARSE_STEP_MS);
    let (c1, c2) = match coarse {
        None => {
            return None;
        },
        Some(c) => c,
    };
    let f1_min: i64 = if MIN_ACCEL_PHASE_MS > c1 - FINE_HALF_WIDTH_MS {
        MIN_ACCEL_PHASE_MS
    } else {
        c1 - FINE_HALF_WIDTH_MS
    };
    let f1_max: i64 = if bp1_max < c1 + FINE_HALF_WIDTH_MS {
        bp1_max
    } else {
        c1 + FINE_HALF_WIDTH_MS
    };
    let f2_min: i64 = if ms > c2 - FINE_HALF_WIDTH_MS {
        ms
    } else {
        c2 - FINE_HALF_WIDTH_MS
    };
    let f2_max: i64 = if bp2_max < c2 + FINE_HALF_WIDTH_MS {
        bp2_max
    } else {
        c2 + FINE_HALF_WIDTH_MS
    };
    let fine = grid_search(&ts, &ys, f1_min, f1_max, f2_min, f2_max, FINE_STEP_MS);
    let (f1, f2) = match fine {
        Some(p) => p,
        None => (c1, c2),
    };
    let m = normal_matrix(&ts, &ys, f1, f2);
    match solve_4x4(&m) {
        None => None,
        Some(x) => {
            let ghost xv = view_of(x@);
            proof {
                let u = forward_spec(view_of(m@), 0).unwrap();
                assert(back_from(u, 0) == Some(xv));
                lemma_back_bounded(u, 0);
                assert forall|j: int| 0 <= j < 4 implies abs(#[trigger] x@[j] as int) <= ENTRY_BOUND by {
                    assert(xv[j] == x@[j] as int);
                }
                assert(abs(x@[1] as int * f1 as int) <= 1_000_000_000_000_000_000 * 100_000_000int) by (nonlinear_arith)
                    requires
                        abs(x@[1] as int) <= 1_000_000_000_000_000_000int,
                        abs(f1 as int) <= 100_000_000int,
                ;
                assert(abs(x@[2] as int * (f2 as int - f1 as int)) <= 1_000_000_000_000_000_000 * 200_000_000int)
                    by (nonlinear_arith)
                    requires
                        abs(x@[2] as int) <= 1_000_000_000_000_000_000int,
                        abs(f2 as int - f1 as int) <= 200_000_000int,
                ;
                lemma_tdiv_bound(x@[0] as int, 1000);
            }
            let (x0, x1, x2, x3) = (x[0], x[1], x[2], x[3]);
            let level_sum: i128 = 2 * (x0 + x1 * (f1 as i128)) + x2 * ((f2 as i128) - (f1 as i128));
            proof {
                lemma_tdiv_bound(level_sum as int, 2000);
            }
            let confidence = if x3 <= HIGH_CONFIDENCE_SLOPE {
                Confidence::High
            } else {
                Confidence::Medium
            };
            let fit = PiecewiseFit {
                bp1: f1 * 1000,
                bp2: f2 * 1000,
                y0: div_trunc(x0, RHS_SCALE),
                s1: x1,
                s2: x2,
                s3: x3,
                sprint_level: div_trunc(level_sum, 2 * RHS_SCALE),
                confidence,
            };
            assert(fit == fit_result(f1 as int, f2 as int, xv));
            Some(fit)
        },
    }
}

} // verus!
