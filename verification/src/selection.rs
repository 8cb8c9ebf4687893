//! User-authored valid-time selections and the cycle validity filter.
//!
//! A selection is a list of time windows. A cycle counts as valid
//! exactly when some window contains it whole.

use vstd::prelude::*;

verus! {

/// Whether some selection window contains the interval `cyc` whole.
pub open spec fn spec_in_selection(cyc: (i64, i64), sels: Seq<(i64, i64)>) -> bool {
    exists|k: int| 0 <= k < sels.len() && (#[trigger] sels[k]).0 <= cyc.0 && cyc.1 <= sels[k].1
}

/// Whether one interval lies inside another.
pub open spec fn spec_within(cyc: (i64, i64), sel: (i64, i64)) -> bool {
    sel.0 <= cyc.0 && cyc.1 <= sel.1
}

/// Tests whether some selection window contains `cyc` whole.
pub fn in_selection(cyc: (i64, i64), sels: &Vec<(i64, i64)>) -> (r: bool)
    ensures
        r == spec_in_selection(cyc, sels@),
{
    let mut k: usize = 0;
    while k < sels.len()
        invariant
            k <= sels@.len(),
            forall|m: int| 0 <= m < k ==> !((#[trigger] sels@[m]).0 <= cyc.0 && cyc.1 <= sels@[m].1),
        decreases sels@.len() - k,
    {
        let (a, b) = sels[k];
        if a <= cyc.0 && cyc.1 <= b {
            return true;
        }
        k = k + 1;
    }
    false
}

/// The cycles that lie whole inside some selection window, in their
/// original order.
pub open spec fn spec_valid_cycles(cycles: Seq<(i64, i64)>, sels: Seq<(i64, i64)>) -> Seq<
    (i64, i64),
> {
    cycles.filter(|c: (i64, i64)| spec_in_selection(c, sels))
}

/// Keeps the cycles that lie whole inside some selection window, in
/// their original order.
pub fn valid_cycles(cycles: &Vec<(i64, i64)>, sels: &Vec<(i64, i64)>) -> (r: Vec<(i64, i64)>)
    ensures
        r@ == spec_valid_cycles(cycles@, sels@),
{
    let pred = Ghost(|c: (i64, i64)| spec_in_selection(c, sels@));
    let mut out: Vec<(i64, i64)> = Vec::new();
    let mut i: usize = 0;
    proof {
        reveal(Seq::filter);
    }
    while i < cycles.len()
        invariant
            i <= cycles@.len(),
            pred@ == (|c: (i64, i64)| spec_in_selection(c, sels@)),
            out@ == cycles@.take(i as int).filter(pred@),
        decreases cycles@.len() - i,
    {
        let keep = in_selection(cycles[i], sels);
        proof {
            reveal(Seq::filter);
            assert(cycles@.take(i + 1).drop_last() =~= cycles@.take(i as int));
            assert(cycles@.take(i + 1).last() == cycles@[i as int]);
        }
        if keep {
            out.push(cycles[i]);
        }
        i = i + 1;
    }
    proof {
        assert(cycles@.take(cycles@.len() as int) =~= cycles@);
    }
    out
}

/// Whether an interval starts inside some half-open window.
pub open spec fn spec_starts_in(iv: (i64, i64), wins: Seq<(i64, i64)>) -> bool {
    exists|k: int| 0 <= k < wins.len() && (#[trigger] wins[k]).0 <= iv.0 && iv.0 < wins[k].1
}

/// The intervals whose start lies inside some half-open window, in
/// their original order — the rule the export path uses for its mean
/// gaps.
pub open spec fn spec_intervals_starting_in(
    iv: Seq<(i64, i64)>,
    wins: Seq<(i64, i64)>,
) -> Seq<(i64, i64)> {
    iv.filter(|p: (i64, i64)| spec_starts_in(p, wins))
}

/// Keeps the intervals whose start lies inside some half-open window.
pub fn intervals_starting_in(iv: &Vec<(i64, i64)>, wins: &Vec<(i64, i64)>) -> (r: Vec<(i64, i64)>)
    ensures
        r@ == spec_intervals_starting_in(iv@, wins@),
{
    let pred = Ghost(|p: (i64, i64)| spec_starts_in(p, wins@));
    let mut out: Vec<(i64, i64)> = Vec::new();
    let mut i: usize = 0;
    proof {
        reveal(Seq::filter);
    }
    while i < iv.len()
        invariant
            i <= iv@.len(),
            pred@ == (|p: (i64, i64)| spec_starts_in(p, wins@)),
            out@ == iv@.take(i as int).filter(pred@),
        decreases iv@.len() - i,
    {
        let mut keep = false;
        let mut k: usize = 0;
        while k < wins.len()
            invariant
                k <= wins@.len(),
                keep == exists|m: int|
                    0 <= m < k && (#[trigger] wins@[m]).0 <= iv@[i as int].0 && iv@[i as int].0
                        < wins@[m].1,
                i < iv@.len(),
            decreases wins@.len() - k,
        {
            let (a, b) = wins[k];
            if a <= iv[i].0 && iv[i].0 < b {
                keep = true;
            }
            k = k + 1;
        }
        proof {
            reveal(Seq::filter);
            assert(iv@.take(i + 1).drop_last() =~= iv@.take(i as int));
            assert(iv@.take(i + 1).last() == iv@[i as int]);
            assert(keep == spec_starts_in(iv@[i as int], wins@));
        }
        if keep {
            out.push(iv[i]);
        }
        i = i + 1;
    }
    proof {
        assert(iv@.take(iv@.len() as int) =~= iv@);
    }
    out
}

/// Validity filter: every kept cycle lies whole inside some selection
/// window.
pub proof fn lemma_validity_filter(cycles: Seq<(i64, i64)>, sels: Seq<(i64, i64)>)
    ensures
        forall|i: int|
            0 <= i < spec_valid_cycles(cycles, sels).len() ==> spec_in_selection(
                #[trigger] spec_valid_cycles(cycles, sels)[i],
                sels,
            ),
{
    let pred = |c: (i64, i64)| spec_in_selection(c, sels);
    assert forall|i: int| 0 <= i < spec_valid_cycles(cycles, sels).len() implies spec_in_selection(
        #[trigger] spec_valid_cycles(cycles, sels)[i],
        sels,
    ) by {
        Seq::lemma_filter_pred(cycles, pred, i);
    }
}

} // verus!
