//! Per-cycle aggregation: window extraction, per-cycle extrema, interval
//! durations and their summaries.
//!
//! For each valid cycle the samples whose times fall in the half-open
//! cycle window are collected; a cycle with no samples is skipped
//! silently. The per-cycle minima and maxima then each get a
//! five-number summary; an empty duration or extremum vector yields no
//! summary rather than a failure.

use vstd::prelude::*;

use crate::quantile::{quantile5, spec_quantile5, Quantile};
use crate::ticks::valid_tick;

verus! {

/// The values whose row index is below `n` and whose time lies in
/// `[w.0, w.1)`, in file order.
pub open spec fn spec_window_upto(
    vals: Seq<i64>,
    times: Seq<i64>,
    w: (i64, i64),
    n: int,
) -> Seq<i64>
    decreases n,
{
    if n <= 0 || n > times.len() || times.len() != vals.len() {
        Seq::empty()
    } else if w.0 <= times[n - 1] && times[n - 1] < w.1 {
        spec_window_upto(vals, times, w, n - 1).push(vals[n - 1])
    } else {
        spec_window_upto(vals, times, w, n - 1)
    }
}

/// The values of all rows whose time lies in `[w.0, w.1)`.
pub open spec fn spec_window(vals: Seq<i64>, times: Seq<i64>, w: (i64, i64)) -> Seq<i64> {
    spec_window_upto(vals, times, w, times.len() as int)
}

/// Collects the values sampled inside the half-open window `w`.
pub fn window_values(vals: &Vec<i64>, times: &Vec<i64>, w: (i64, i64)) -> (r: Vec<i64>)
    requires
        vals@.len() == times@.len(),
    ensures
        r@ == spec_window(vals@, times@, w),
{
    let mut out: Vec<i64> = Vec::new();
    let mut i: usize = 0;
    while i < times.len()
        invariant
            i <= times@.len(),
            vals@.len() == times@.len(),
            out@ == spec_window_upto(vals@, times@, w, i as int),
        decreases times@.len() - i,
    {
        if w.0 <= times[i] && times[i] < w.1 {
            out.push(vals[i]);
        }
        i = i + 1;
    }
    out
}

/// The smallest element of a non-empty sequence.
pub open spec fn spec_seq_min(s: Seq<i64>) -> i64
    recommends
        s.len() > 0,
    decreases s.len(),
{
    if s.len() <= 1 {
        s[0]
    } else if s.last() < spec_seq_min(s.drop_last()) {
        s.last()
    } else {
        spec_seq_min(s.drop_last())
    }
}

/// The largest element of a non-empty sequence.
pub open spec fn spec_seq_max(s: Seq<i64>) -> i64
    recommends
        s.len() > 0,
    decreases s.len(),
{
    if s.len() <= 1 {
        s[0]
    } else if s.last() > spec_seq_max(s.drop_last()) {
        s.last()
    } else {
        spec_seq_max(s.drop_last())
    }
}

/// The smallest element of a non-empty vector.
pub fn seq_min(v: &Vec<i64>) -> (r: i64)
    requires
        v@.len() > 0,
    ensures
        r == spec_seq_min(v@),
{
    let mut best = v[0];
    let mut i: usize = 1;
    while i < v.len()
        invariant
            1 <= i <= v@.len(),
            best == spec_seq_min(v@.take(i as int)),
        decreases v@.len() - i,
    {
        proof {
            assert(v@.take(i + 1).drop_last() =~= v@.take(i as int));
        }
        if v[i] < best {
            best = v[i];
        }
        i = i + 1;
    }
    proof {
        assert(v@.take(v@.len() as int) =~= v@);
    }
    best
}

/// The largest element of a non-empty vector.
pub fn seq_max(v: &Vec<i64>) -> (r: i64)
    requires
        v@.len() > 0,
    ensures
        r == spec_seq_max(v@),
{
    let mut best = v[0];
    let mut i: usize = 1;
    while i < v.len()
        invariant
            1 <= i <= v@.len(),
            best == spec_seq_max(v@.take(i as int)),
        decreases v@.len() - i,
    {
        proof {
            assert(v@.take(i + 1).drop_last() =~= v@.take(i as int));
        }
        if v[i] > best {
            best = v[i];
        }
        i = i + 1;
    }
    proof {
        assert(v@.take(v@.len() as int) =~= v@);
    }
    best
}

/// The per-cycle minima over the first `n` cycles, cycles with an empty
/// window skipped.
pub open spec fn spec_cycle_mins(
    vals: Seq<i64>,
    times: Seq<i64>,
    cycles: Seq<(i64, i64)>,
    n: int,
) -> Seq<i64>
    decreases n,
{
    if n <= 0 || n > cycles.len() {
        Seq::empty()
    } else if spec_window(vals, times, cycles[n - 1]).len() > 0 {
        spec_cycle_mins(vals, times, cycles, n - 1).push(
            spec_seq_min(spec_window(vals, times, cycles[n - 1])),
        )
    } else {
        spec_cycle_mins(vals, times, cycles, n - 1)
    }
}

/// The per-cycle maxima over the first `n` cycles, cycles with an empty
/// window skipped.
pub open spec fn spec_cycle_maxs(
    vals: Seq<i64>,
    times: Seq<i64>,
    cycles: Seq<(i64, i64)>,
    n: int,
) -> Seq<i64>
    decreases n,
{
    if n <= 0 || n > cycles.len() {
        Seq::empty()
    } else if spec_window(vals, times, cycles[n - 1]).len() > 0 {
        spec_cycle_maxs(vals, times, cycles, n - 1).push(
            spec_seq_max(spec_window(vals, times, cycles[n - 1])),
        )
    } else {
        spec_cycle_maxs(vals, times, cycles, n - 1)
    }
}

/// Five-number summaries of the per-cycle minima and maxima of one
/// signal over the valid cycles. A signal with no sampled cycle yields
/// no summary on that side.
pub fn get_min_max_quantile(vals: &Vec<i64>, times: &Vec<i64>, cycles: &Vec<(i64, i64)>) -> (r: (
    Option<Quantile>,
    Option<Quantile>,
))
    requires
        vals@.len() == times@.len(),
    ensures
        ({
            let mins = spec_cycle_mins(vals@, times@, cycles@, cycles@.len() as int);
            let maxs = spec_cycle_maxs(vals@, times@, cycles@, cycles@.len() as int);
            &&& r.0 == (if mins.len() > 0 {
                Some(spec_quantile5(mins))
            } else {
                Option::<Quantile>::None
            })
            &&& r.1 == (if maxs.len() > 0 {
                Some(spec_quantile5(maxs))
            } else {
                Option::<Quantile>::None
            })
        }),
{
    let mut mins: Vec<i64> = Vec::new();
    let mut maxs: Vec<i64> = Vec::new();
    let mut i: usize = 0;
    while i < cycles.len()
        invariant
            i <= cycles@.len(),
            vals@.len() == times@.len(),
            mins@ == spec_cycle_mins(vals@, times@, cycles@, i as int),
            maxs@ == spec_cycle_maxs(vals@, times@, cycles@, i as int),
        decreases cycles@.len() - i,
    {
        let w = window_values(vals, times, cycles[i]);
        if w.len() > 0 {
            mins.push(seq_min(&w));
            maxs.push(seq_max(&w));
        }
        i = i + 1;
    }
    let min_q = match quantile5(&mins) {
        Ok(q) => Some(q),
        Err(_) => None,
    };
    let max_q = match quantile5(&maxs) {
        Ok(q) => Some(q),
        Err(_) => None,
    };
    (min_q, max_q)
}

/// The durations of a list of intervals.
pub open spec fn spec_gaps(iv: Seq<(i64, i64)>) -> Seq<i64> {
    iv.map(|_k: int, p: (i64, i64)| (p.1 - p.0) as i64)
}

/// Whether both ends of every interval are tick values the pipeline may
/// hold.
pub open spec fn spec_valid_intervals(iv: Seq<(i64, i64)>) -> bool {
    forall|k: int|
        0 <= k < iv.len() ==> valid_tick((#[trigger] iv[k]).0 as int) && valid_tick(iv[k].1 as int)
}

/// The duration of each interval, end minus start.
pub fn interval_gaps(iv: &Vec<(i64, i64)>) -> (r: Vec<i64>)
    requires
        spec_valid_intervals(iv@),
    ensures
        r@ == spec_gaps(iv@),
{
    let mut out: Vec<i64> = Vec::new();
    let mut i: usize = 0;
    while i < iv.len()
        invariant
            i <= iv@.len(),
            spec_valid_intervals(iv@),
            out@.len() == i,
            forall|k: int| 0 <= k < i ==> out@[k] == (iv@[k].1 - iv@[k].0) as i64,
        decreases iv@.len() - i,
    {
        let (s, e) = iv[i];
        out.push(e - s);
        i = i + 1;
    }
    proof {
        assert(out@ =~= spec_gaps(iv@));
    }
    out
}

/// Sum of the durations of a list of intervals.
pub open spec fn spec_gap_sum(iv: Seq<(i64, i64)>) -> int
    decreases iv.len(),
{
    if iv.len() == 0 {
        0
    } else {
        spec_gap_sum(iv.drop_last()) + iv.last().1 - iv.last().0
    }
}

/// Sum and count of interval durations; the mean gap is their exact
/// quotient, left to the caller to render.
pub struct GapStats {
    pub sum: i128,
    pub count: usize,
}

/// Sums the durations of a list of intervals, keeping the count, so a
/// caller can render the mean gap.
pub fn gap_stats(iv: &Vec<(i64, i64)>) -> (r: GapStats)
    requires
        spec_valid_intervals(iv@),
    ensures
        r.sum == spec_gap_sum(iv@),
        r.count == iv@.len(),
{
    let mut sum: i128 = 0;
    let mut i: usize = 0;
    while i < iv.len()
        invariant
            i <= iv@.len(),
            spec_valid_intervals(iv@),
            sum == spec_gap_sum(iv@.take(i as int)),
            -(i as int) * 0x4000_0000_0000_0000 <= sum <= (i as int) * 0x4000_0000_0000_0000,
        decreases iv@.len() - i,
    {
        let (s, e) = iv[i];
        proof {
            assert(iv@.take(i + 1).drop_last() =~= iv@.take(i as int));
            assert(valid_tick(iv@[i as int].0 as int) && valid_tick(iv@[i as int].1 as int));
            assert((i as int + 1) * 0x4000_0000_0000_0000 == (i as int) * 0x4000_0000_0000_0000
                + 0x4000_0000_0000_0000) by (nonlinear_arith);
            assert((i as int) * 0x4000_0000_0000_0000 <= 0x10000_0000_0000_0000 * 0x4000_0000_0000_0000)
                by (nonlinear_arith)
                requires
                    0 <= i as int <= 0x10000_0000_0000_0000,
            ;
        }
        sum = sum + (e as i128 - s as i128);
        i = i + 1;
    }
    proof {
        assert(iv@.take(iv@.len() as int) =~= iv@);
    }
    GapStats { sum, count: iv.len() }
}

/// The five-number summary of interval durations, or nothing when the
/// list is empty.
pub fn gap_quantile(iv: &Vec<(i64, i64)>) -> (r: Option<Quantile>)
    requires
        spec_valid_intervals(iv@),
    ensures
        r == (if iv@.len() > 0 {
            Some(spec_quantile5(spec_gaps(iv@)))
        } else {
            Option::<Quantile>::None
        }),
{
    let gaps = interval_gaps(iv);
    match quantile5(&gaps) {
        Ok(q) => Some(q),
        Err(_) => None,
    }
}

} // verus!
