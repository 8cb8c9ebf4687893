//! Five-number summaries with nearest-rank quartiles.
//!
//! `Q1` and `Q3` are taken by nearest rank: the element at index
//! `ceil(p * n) - 1` of the sorted sample for `p` of one or three
//! quarters. The median of an even-length sample is the midpoint of the
//! two central elements; those two elements are kept as `med_lo` and
//! `med_hi` so the summary stays in exact integer ticks (for an
//! odd-length sample both hold the middle element).

use vstd::prelude::*;

use crate::errors::AnalysisError;

verus! {

/// Five-number summary of a non-empty sample, in ticks.
#[derive(Clone, Copy, Debug, PartialEq, Eq, Structural)]
pub struct Quantile {
    pub min: i64,
    pub q1: i64,
    pub med_lo: i64,
    pub med_hi: i64,
    pub q3: i64,
    pub max: i64,
}

impl Quantile {
    /// Packs the five summary ranks (median as its two central elements).
    pub fn new(min: i64, q1: i64, med_lo: i64, med_hi: i64, q3: i64, max: i64) -> (r: Quantile)
        ensures
            r == (Quantile { min, q1, med_lo, med_hi, q3, max }),
    {
        Quantile { min, q1, med_lo, med_hi, q3, max }
    }

    /// The six stored ranks in ascending order of rank.
    pub fn to_tuple(&self) -> (r: (i64, i64, i64, i64, i64, i64))
        ensures
            r == (self.min, self.q1, self.med_lo, self.med_hi, self.q3, self.max),
    {
        (self.min, self.q1, self.med_lo, self.med_hi, self.q3, self.max)
    }

    /// The largest sample.
    pub fn max(&self) -> (r: i64)
        ensures
            r == self.max,
    {
        self.max
    }

    /// The smallest sample.
    pub fn min(&self) -> (r: i64)
        ensures
            r == self.min,
    {
        self.min
    }
}

/// Whether `s` is sorted in non-decreasing order.
pub open spec fn spec_sorted(s: Seq<i64>) -> bool {
    forall|i: int, j: int| 0 <= i <= j < s.len() ==> s[i] <= s[j]
}

/// `x` placed before the first element of `s` not smaller than it.
pub open spec fn spec_insert_sorted(x: i64, s: Seq<i64>) -> Seq<i64>
    decreases s.len(),
{
    if s.len() == 0 {
        seq![x]
    } else if x <= s[0] {
        seq![x] + s
    } else {
        seq![s[0]] + spec_insert_sorted(x, s.skip(1))
    }
}

/// The sorted rearrangement of `v` (insertion sort, element by element).
pub open spec fn spec_sorted_seq(v: Seq<i64>) -> Seq<i64>
    decreases v.len(),
{
    if v.len() == 0 {
        Seq::empty()
    } else {
        spec_insert_sorted(v.last(), spec_sorted_seq(v.drop_last()))
    }
}

pub proof fn lemma_insert_sorted_len(x: i64, s: Seq<i64>)
    ensures
        spec_insert_sorted(x, s).len() == s.len() + 1,
    decreases s.len(),
{
    if s.len() > 0 && !(x <= s[0]) {
        lemma_insert_sorted_len(x, s.skip(1));
    }
}

pub proof fn lemma_sorted_seq_len(v: Seq<i64>)
    ensures
        spec_sorted_seq(v).len() == v.len(),
    decreases v.len(),
{
    if v.len() > 0 {
        lemma_sorted_seq_len(v.drop_last());
        lemma_insert_sorted_len(v.last(), spec_sorted_seq(v.drop_last()));
    }
}

pub proof fn lemma_insert_sorted_sorted(x: i64, s: Seq<i64>)
    requires
        spec_sorted(s),
    ensures
        spec_sorted(spec_insert_sorted(x, s)),
    decreases s.len(),
{
    if s.len() == 0 {
    } else if x <= s[0] {
    } else {
        assert(spec_sorted(s.skip(1)));
        lemma_insert_sorted_sorted(x, s.skip(1));
        lemma_insert_sorted_len(x, s.skip(1));
        let r = seq![s[0]] + spec_insert_sorted(x, s.skip(1));
        let t = spec_insert_sorted(x, s.skip(1));
        assert forall|i: int, j: int| 0 <= i <= j < r.len() implies r[i] <= r[j] by {
            if i == 0 && j > 0 {
                // The head is no larger than anything inserted behind it:
                // every element of t is either x (> s[0]) or an element of
                // s.skip(1) (>= s[0] by sortedness).
                assert(r[j] == t[j - 1]);
                lemma_insert_sorted_elems(x, s.skip(1), j - 1);
            } else if i > 0 {
                assert(r[i] == t[i - 1] && r[j] == t[j - 1]);
            }
        }
    }
}

/// Every element of the inserted sequence is `x` or an element of `s`.
pub proof fn lemma_insert_sorted_elems(x: i64, s: Seq<i64>, k: int)
    requires
        0 <= k < s.len() + 1,
    ensures
        spec_insert_sorted(x, s).len() == s.len() + 1,
        spec_insert_sorted(x, s)[k] == x || exists|m: int|
            0 <= m < s.len() && spec_insert_sorted(x, s)[k] == s[m],
    decreases s.len(),
{
    lemma_insert_sorted_len(x, s);
    if s.len() == 0 {
    } else if x <= s[0] {
        if k > 0 {
            assert(spec_insert_sorted(x, s)[k] == s[k - 1]);
        }
    } else {
        if k == 0 {
            assert(spec_insert_sorted(x, s)[0] == s[0]);
        } else {
            lemma_insert_sorted_elems(x, s.skip(1), k - 1);
            let t = spec_insert_sorted(x, s.skip(1));
            assert(spec_insert_sorted(x, s)[k] == t[k - 1]);
            if t[k - 1] != x {
                let m = choose|m: int| 0 <= m < s.skip(1).len() && t[k - 1] == s.skip(1)[m];
                assert(s.skip(1)[m] == s[m + 1]);
            }
        }
    }
}

pub proof fn lemma_sorted_seq_sorted(v: Seq<i64>)
    ensures
        spec_sorted(spec_sorted_seq(v)),
    decreases v.len(),
{
    if v.len() > 0 {
        lemma_sorted_seq_sorted(v.drop_last());
        lemma_insert_sorted_sorted(v.last(), spec_sorted_seq(v.drop_last()));
    }
}

/// Inserting an element adds exactly it to the sequence's contents.
pub proof fn lemma_insert_sorted_multiset(x: i64, s: Seq<i64>)
    ensures
        spec_insert_sorted(x, s).to_multiset() == s.to_multiset().insert(x),
    decreases s.len(),
{
    broadcast use vstd::seq_lib::group_to_multiset_ensures;

    if s.len() == 0 {
        assert(seq![x] =~= Seq::<i64>::empty().push(x));
        assert(seq![x].to_multiset() =~= Seq::<i64>::empty().to_multiset().insert(x));
    } else if x <= s[0] {
        lemma_cons_multiset(x, s);
    } else {
        lemma_insert_sorted_multiset(x, s.skip(1));
        lemma_cons_multiset(s[0], spec_insert_sorted(x, s.skip(1)));
        lemma_cons_multiset(s[0], s.skip(1));
        assert(seq![s[0]] + s.skip(1) =~= s);
        assert((seq![s[0]] + spec_insert_sorted(x, s.skip(1))).to_multiset() =~= s.to_multiset().insert(
            x,
        ));
    }
}

/// Prepending an element adds exactly it to the sequence's contents.
proof fn lemma_cons_multiset(x: i64, s: Seq<i64>)
    ensures
        (seq![x] + s).to_multiset() == s.to_multiset().insert(x),
    decreases s.len(),
{
    broadcast use vstd::seq_lib::group_to_multiset_ensures;

    if s.len() == 0 {
        assert(seq![x] + s =~= Seq::<i64>::empty().push(x));
        assert((seq![x] + s).to_multiset() =~= s.to_multiset().insert(x));
    } else {
        lemma_cons_multiset(x, s.drop_last());
        assert(seq![x] + s =~= (seq![x] + s.drop_last()).push(s.last()));
        assert(s =~= s.drop_last().push(s.last()));
        assert((seq![x] + s).to_multiset() =~= (seq![x] + s.drop_last()).to_multiset().insert(
            s.last(),
        ));
        assert(s.to_multiset() =~= s.drop_last().to_multiset().insert(s.last()));
        assert(s.drop_last().to_multiset().insert(x).insert(s.last())
            =~= s.drop_last().to_multiset().insert(s.last()).insert(x));
    }
}

/// Sorting rearranges the sample without losing or inventing elements.
pub proof fn lemma_sorted_seq_permutes(v: Seq<i64>)
    ensures
        spec_sorted_seq(v).to_multiset() == v.to_multiset(),
    decreases v.len(),
{
    broadcast use vstd::seq_lib::group_to_multiset_ensures;

    if v.len() > 0 {
        lemma_sorted_seq_permutes(v.drop_last());
        lemma_insert_sorted_multiset(v.last(), spec_sorted_seq(v.drop_last()));
        assert(v =~= v.drop_last().push(v.last()));
        assert(v.to_multiset() =~= v.drop_last().to_multiset().insert(v.last()));
    }
}

/// `x` belongs at position `j` of sorted `s`: splicing it in there is
/// exactly the insertion the specification describes.
proof fn lemma_insert_at(x: i64, s: Seq<i64>, j: int)
    requires
        0 <= j <= s.len(),
        forall|k: int| 0 <= k < j ==> s[k] < x,
        j < s.len() ==> x <= s[j],
    ensures
        spec_insert_sorted(x, s) =~= s.take(j) + seq![x] + s.skip(j),
    decreases j,
{
    if j == 0 {
        assert(s.take(0) + seq![x] + s.skip(0) =~= seq![x] + s);
    } else {
        assert(s[0] < x);
        lemma_insert_at(x, s.skip(1), j - 1);
        assert(s.skip(1).take(j - 1) =~= s.take(j).skip(1));
        assert(s.skip(1).skip(j - 1) =~= s.skip(j));
        assert(seq![s[0]] + (s.skip(1).take(j - 1) + seq![x] + s.skip(1).skip(j - 1)) =~= s.take(j)
            + seq![x] + s.skip(j));
    }
}

/// Inserts `x` into the sorted vector `s`.
fn insert_tick(s: &Vec<i64>, x: i64) -> (r: Vec<i64>)
    ensures
        r@ == spec_insert_sorted(x, s@),
{
    let mut j: usize = 0;
    while j < s.len() && s[j] < x
        invariant
            j <= s@.len(),
            forall|k: int| 0 <= k < j ==> s@[k] < x,
        decreases s@.len() - j,
    {
        j = j + 1;
    }
    let mut out: Vec<i64> = Vec::new();
    let mut i: usize = 0;
    while i < j
        invariant
            i <= j <= s@.len(),
            out@ =~= s@.take(i as int),
        decreases j - i,
    {
        out.push(s[i]);
        i = i + 1;
    }
    out.push(x);
    let mut k: usize = j;
    while k < s.len()
        invariant
            j <= k <= s@.len(),
            out@ =~= s@.take(j as int) + seq![x] + s@.subrange(j as int, k as int),
        decreases s@.len() - k,
    {
        out.push(s[k]);
        k = k + 1;
    }
    proof {
        assert(s@.subrange(j as int, s@.len() as int) =~= s@.skip(j as int));
        lemma_insert_at(x, s@, j as int);
    }
    out
}

/// Sorts a vector of ticks into non-decreasing order.
pub fn sort_ticks(v: &Vec<i64>) -> (r: Vec<i64>)
    ensures
        r@ == spec_sorted_seq(v@),
{
    let mut out: Vec<i64> = Vec::new();
    let mut i: usize = 0;
    while i < v.len()
        invariant
            i <= v@.len(),
            out@ == spec_sorted_seq(v@.take(i as int)),
        decreases v@.len() - i,
    {
        let next = insert_tick(&out, v[i]);
        proof {
            assert(v@.take(i + 1).drop_last() =~= v@.take(i as int));
            assert(v@.take(i + 1).last() == v@[i as int]);
        }
        out = next;
        i = i + 1;
    }
    proof {
        assert(v@.take(v@.len() as int) =~= v@);
    }
    out
}

/// Index of `Q1` in a sorted sample of length `n`: nearest rank
/// `ceil(n / 4) - 1`.
pub open spec fn spec_q1_index(n: int) -> int {
    (n + 3) / 4 - 1
}

/// Index of `Q3` in a sorted sample of length `n`: nearest rank
/// `ceil(3 * n / 4) - 1`.
pub open spec fn spec_q3_index(n: int) -> int {
    (3 * n + 3) / 4 - 1
}

/// The summary of `v`, read off the sorted rearrangement of `v`.
pub open spec fn spec_quantile5(v: Seq<i64>) -> Quantile {
    let s = spec_sorted_seq(v);
    let n = v.len() as int;
    Quantile {
        min: s[0],
        q1: s[spec_q1_index(n)],
        med_lo: s[(n - 1) / 2],
        med_hi: s[n / 2],
        q3: s[spec_q3_index(n)],
        max: s[n - 1],
    }
}

/// The nearest-rank indices lie in order inside a length-`n` sample.
pub proof fn lemma_rank_indices(n: int)
    requires
        n >= 1,
    ensures
        0 <= spec_q1_index(n),
        spec_q1_index(n) <= (n - 1) / 2,
        (n - 1) / 2 <= n / 2,
        n / 2 <= spec_q3_index(n),
        spec_q3_index(n) <= n - 1,
{
}

/// The five-number summary of a non-empty vector of ticks. An empty
/// vector is the one failing input.
pub fn quantile5(v: &Vec<i64>) -> (r: Result<Quantile, AnalysisError>)
    ensures
        match r {
            Ok(q) => v@.len() > 0 && q == spec_quantile5(v@),
            Err(e) => v@.len() == 0 && e == AnalysisError::EmptyInput,
        },
{
    let n = v.len();
    if n == 0 {
        return Err(AnalysisError::EmptyInput);
    }
    let s = sort_ticks(v);
    proof {
        lemma_sorted_seq_len(v@);
        lemma_rank_indices(n as int);
    }
    let q1i: usize = ((n as u128 + 3) / 4 - 1) as usize;
    let q3i: usize = ((3 * (n as u128) + 3) / 4 - 1) as usize;
    Ok(Quantile {
        min: s[0],
        q1: s[q1i],
        med_lo: s[(n - 1) / 2],
        med_hi: s[n / 2],
        q3: s[q3i],
        max: s[n - 1],
    })
}

/// Quantile monotonicity: for every non-empty sample the summary ranks
/// are ordered `min <= q1 <= median <= q3 <= max` (the median lying
/// between its two central elements).
pub proof fn lemma_quantile_monotonic(v: Seq<i64>)
    requires
        v.len() > 0,
    ensures
        spec_quantile5(v).min <= spec_quantile5(v).q1,
        spec_quantile5(v).q1 <= spec_quantile5(v).med_lo,
        spec_quantile5(v).med_lo <= spec_quantile5(v).med_hi,
        spec_quantile5(v).med_hi <= spec_quantile5(v).q3,
        spec_quantile5(v).q3 <= spec_quantile5(v).max,
{
    lemma_sorted_seq_len(v);
    lemma_sorted_seq_sorted(v);
    lemma_rank_indices(v.len() as int);
}

} // verus!
