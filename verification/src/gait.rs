//! Gait-cycle extraction from the double-support channel.
//!
//! A full stride spans two double-support phases, so only every other
//! double-support START is a cycle boundary; consecutive boundaries form
//! the cycles. The filter path additionally brackets the boundaries with
//! a zero time and the last observed time, making a degenerate
//! "full recording" cycle list for the selection-string builder; the
//! selection path works on the bare boundaries.

use vstd::prelude::*;

use crate::edges::{spec_start_rows, times_at};

verus! {

/// Every other element of `s`, beginning with the first.
pub open spec fn spec_every_other(s: Seq<i64>) -> Seq<i64> {
    Seq::new(((s.len() + 1) / 2) as nat, |k: int| s[2 * k])
}

/// Consecutive elements of `b`, paired: `(b[0], b[1]), (b[1], b[2]), …`.
pub open spec fn spec_adjacent_pairs(b: Seq<i64>) -> Seq<(i64, i64)> {
    Seq::new(
        if b.len() >= 1 {
            (b.len() - 1) as nat
        } else {
            0
        },
        |k: int| (b[k], b[k + 1]),
    )
}

/// The gait-cycle boundaries of a recording: every other time at which
/// the double-support channel turns on.
pub open spec fn spec_gait_boundaries(t: Seq<i64>, db: Seq<bool>) -> Seq<i64> {
    spec_every_other(times_at(t, spec_start_rows(db)))
}

/// Keeps every other element of `v`, beginning with the first.
pub fn every_other(v: &Vec<i64>) -> (r: Vec<i64>)
    ensures
        r@ == spec_every_other(v@),
{
    let mut out: Vec<i64> = Vec::new();
    let mut i: usize = 0;
    while i < v.len()
        invariant
            i <= v@.len(),
            i % 2 == 0 || i == v@.len(),
            out@.len() == (i + 1) / 2,
            forall|k: int| 0 <= k < out@.len() ==> out@[k] == v@[2 * k],
        decreases v@.len() - i,
    {
        out.push(v[i]);
        if v.len() - i >= 2 {
            i = i + 2;
        } else {
            i = i + 1;
        }
    }
    proof {
        assert(out@ =~= spec_every_other(v@));
    }
    out
}

/// Pairs consecutive elements of a boundary list into cycles.
pub fn adjacent_pairs(b: &Vec<i64>) -> (r: Vec<(i64, i64)>)
    ensures
        r@ == spec_adjacent_pairs(b@),
{
    let mut out: Vec<(i64, i64)> = Vec::new();
    if b.len() == 0 {
        proof {
            assert(out@ =~= spec_adjacent_pairs(b@));
        }
        return out;
    }
    let mut i: usize = 0;
    while i < b.len() - 1
        invariant
            b@.len() >= 1,
            i <= b@.len() - 1,
            out@.len() == i,
            forall|k: int| 0 <= k < i ==> out@[k] == (b@[k], b@[k + 1]),
        decreases b@.len() - i,
    {
        out.push((b[i], b[i + 1]));
        i = i + 1;
    }
    proof {
        assert(out@ =~= spec_adjacent_pairs(b@));
    }
    out
}

/// Gait boundaries and cycles of a recording, without sentinels: the
/// boundary list is every other double-support START time, the cycles
/// are its consecutive pairs.
pub fn gait_cycles(t: &Vec<i64>, db: &Vec<bool>) -> (r: (Vec<i64>, Vec<(i64, i64)>))
    requires
        t@.len() == db@.len(),
    ensures
        r.0@ == spec_gait_boundaries(t@, db@),
        r.1@ == spec_adjacent_pairs(r.0@),
{
    let (starts, _ends) = crate::edges::edge_times(t, db);
    let bounds = every_other(&starts);
    let cycles = adjacent_pairs(&bounds);
    (bounds, cycles)
}

/// The cycle list of the filter path: boundaries bracketed by a zero
/// time and the last observed time, then paired.
pub fn gait_with_sentinels(t: &Vec<i64>, db: &Vec<bool>) -> (r: Vec<(i64, i64)>)
    requires
        t@.len() == db@.len(),
        t@.len() > 0,
    ensures
        r@ == spec_adjacent_pairs(seq![0i64] + spec_gait_boundaries(t@, db@) + seq![t@.last()]),
{
    let (starts, _ends) = crate::edges::edge_times(t, db);
    let bounds = every_other(&starts);
    let mut full: Vec<i64> = Vec::new();
    full.push(0);
    let mut i: usize = 0;
    while i < bounds.len()
        invariant
            i <= bounds@.len(),
            full@ == seq![0i64] + bounds@.take(i as int),
        decreases bounds@.len() - i,
    {
        full.push(bounds[i]);
        proof {
            assert(seq![0i64] + bounds@.take(i as int) + seq![bounds@[i as int]] =~= seq![0i64]
                + bounds@.take(i + 1));
        }
        i = i + 1;
    }
    full.push(t[t.len() - 1]);
    proof {
        assert(bounds@.take(bounds@.len() as int) =~= bounds@);
        assert(full@ =~= seq![0i64] + spec_gait_boundaries(t@, db@) + seq![t@.last()]);
    }
    adjacent_pairs(&full)
}

/// Gait ordering: consecutive cycles chain, the end of each cycle being
/// the start of the next.
pub proof fn lemma_gait_ordering(b: Seq<i64>)
    ensures
        forall|i: int|
            0 <= i && i + 1 < spec_adjacent_pairs(b).len() ==> (#[trigger] spec_adjacent_pairs(
                b,
            )[i]).1 == spec_adjacent_pairs(b)[i + 1].0,
{
}

} // verus!
