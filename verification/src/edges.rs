//! Edge detection over boolean channels.
//!
//! A row is a START of a channel when the previous row is off and the
//! current row is on, an END in the dual case; the first row, having no
//! predecessor, is never an edge. Start, end and merged edge rows are
//! collected in file order, and two pairing rules turn them into
//! intervals: the double-support rule pairs `start[i]` with `end[i + 1]`,
//! and the single-support rule drops the first and last merged edge and
//! pairs the rest two by two.

use vstd::prelude::*;

verus! {

/// Times are strictly increasing: each sample is later than every
/// earlier one.
pub open spec fn spec_strictly_increasing(t: Seq<i64>) -> bool {
    forall|i: int, j: int| 0 <= i < j < t.len() ==> t[i] < t[j]
}

/// Channel turns on at row `i`.
pub open spec fn spec_is_start(c: Seq<bool>, i: int) -> bool {
    1 <= i < c.len() && !c[i - 1] && c[i]
}

/// Channel turns off at row `i`.
pub open spec fn spec_is_end(c: Seq<bool>, i: int) -> bool {
    1 <= i < c.len() && c[i - 1] && !c[i]
}

/// Channel changes at row `i`.
pub open spec fn spec_is_edge(c: Seq<bool>, i: int) -> bool {
    1 <= i < c.len() && c[i - 1] != c[i]
}

/// The rows before `n` whose (previous, current) values satisfy `q`, in
/// file order.
pub open spec fn spec_rows_upto(c: Seq<bool>, n: int, q: spec_fn(bool, bool) -> bool) -> Seq<int>
    decreases n,
{
    if n <= 1 || n > c.len() {
        Seq::empty()
    } else if q(c[n - 2], c[n - 1]) {
        spec_rows_upto(c, n - 1, q).push(n - 1)
    } else {
        spec_rows_upto(c, n - 1, q)
    }
}

/// The START predicate on a (previous, current) pair.
pub open spec fn start_pred() -> spec_fn(bool, bool) -> bool {
    |a: bool, b: bool| !a && b
}

/// The END predicate on a (previous, current) pair.
pub open spec fn end_pred() -> spec_fn(bool, bool) -> bool {
    |a: bool, b: bool| a && !b
}

/// The edge predicate on a (previous, current) pair.
pub open spec fn edge_pred() -> spec_fn(bool, bool) -> bool {
    |a: bool, b: bool| a != b
}

/// All rows where the channel turns on.
pub open spec fn spec_start_rows(c: Seq<bool>) -> Seq<int> {
    spec_rows_upto(c, c.len() as int, start_pred())
}

/// All rows where the channel turns off.
pub open spec fn spec_end_rows(c: Seq<bool>) -> Seq<int> {
    spec_rows_upto(c, c.len() as int, end_pred())
}

/// All rows where the channel changes.
pub open spec fn spec_edge_rows(c: Seq<bool>) -> Seq<int> {
    spec_rows_upto(c, c.len() as int, edge_pred())
}

/// The times of the given rows.
pub open spec fn times_at(t: Seq<i64>, rows: Seq<int>) -> Seq<i64> {
    rows.map(|_k: int, i: int| t[i])
}

/// Every collected row lies in `[1, n)`, satisfies `q` there, and is the
/// row at which exactly `j` earlier matching rows exist.
pub proof fn lemma_rows_upto_index(c: Seq<bool>, n: int, q: spec_fn(bool, bool) -> bool, j: int)
    requires
        n <= c.len(),
        0 <= j < spec_rows_upto(c, n, q).len(),
    ensures
        1 <= spec_rows_upto(c, n, q)[j] < n,
        q(c[spec_rows_upto(c, n, q)[j] - 1], c[spec_rows_upto(c, n, q)[j]]),
        spec_rows_upto(c, spec_rows_upto(c, n, q)[j], q).len() == j,
    decreases n,
{
    if n > 1 {
        let prev = spec_rows_upto(c, n - 1, q);
        if q(c[n - 2], c[n - 1]) && j == prev.len() {
            assert(spec_rows_upto(c, n, q)[j] == n - 1);
        } else {
            lemma_rows_upto_index(c, n - 1, q, j);
        }
    }
}

/// Matching-row lists for growing bounds agree on their common prefix.
pub proof fn lemma_rows_upto_prefix(c: Seq<bool>, m: int, n: int, q: spec_fn(bool, bool) -> bool)
    requires
        m <= n <= c.len(),
    ensures
        spec_rows_upto(c, m, q).len() <= spec_rows_upto(c, n, q).len(),
        forall|j: int|
            0 <= j < spec_rows_upto(c, m, q).len() ==> spec_rows_upto(c, n, q)[j]
                == spec_rows_upto(c, m, q)[j],
    decreases n - m,
{
    if m < n {
        lemma_rows_upto_prefix(c, m, n - 1, q);
    }
}

/// Collected rows are strictly increasing.
pub proof fn lemma_rows_upto_sorted(c: Seq<bool>, n: int, q: spec_fn(bool, bool) -> bool)
    requires
        n <= c.len(),
    ensures
        forall|j: int, k: int|
            0 <= j < k < spec_rows_upto(c, n, q).len() ==> spec_rows_upto(c, n, q)[j]
                < spec_rows_upto(c, n, q)[k],
    decreases n,
{
    if n > 1 {
        lemma_rows_upto_sorted(c, n - 1, q);
        let rows = spec_rows_upto(c, n, q);
        let prev = spec_rows_upto(c, n - 1, q);
        assert forall|j: int, k: int| 0 <= j < k < rows.len() implies rows[j] < rows[k] by {
            if q(c[n - 2], c[n - 1]) && k == prev.len() {
                lemma_rows_upto_index(c, n - 1, q, j);
            }
        }
    }
}

/// Running count: starts exceed ends exactly when the channel is on at
/// the last counted row and was off at row zero, and symmetrically.
pub proof fn lemma_count_diff(c: Seq<bool>, n: int)
    requires
        1 <= n <= c.len(),
    ensures
        spec_rows_upto(c, n, start_pred()).len() - spec_rows_upto(c, n, end_pred()).len() == (if c[n
            - 1] {
            1int
        } else {
            0int
        }) - (if c[0] {
            1int
        } else {
            0int
        }),
    decreases n,
{
    if n > 1 {
        lemma_count_diff(c, n - 1);
    }
}

/// Edge-pairing soundness across the lists: when the channel begins off,
/// the `j`-th START comes strictly before the `j`-th END.
pub proof fn lemma_start_before_end(c: Seq<bool>, j: int)
    requires
        c.len() > 0,
        !c[0],
        0 <= j < spec_end_rows(c).len(),
    ensures
        j < spec_start_rows(c).len(),
        spec_start_rows(c)[j] < spec_end_rows(c)[j],
{
    let e = spec_end_rows(c)[j];
    lemma_rows_upto_index(c, c.len() as int, end_pred(), j);
    assert(spec_rows_upto(c, e, end_pred()).len() == j);
    assert(c[e - 1]);
    lemma_count_diff(c, e);
    assert(spec_rows_upto(c, e, start_pred()).len() == j + 1);
    lemma_rows_upto_index(c, e, start_pred(), j);
    lemma_rows_upto_prefix(c, e, c.len() as int, start_pred());
}

/// For the double-support rule: the `i`-th START comes strictly before
/// the `(i + 1)`-th END, on any channel.
pub proof fn lemma_start_before_next_end(c: Seq<bool>, i: int)
    requires
        0 <= i,
        i + 1 < spec_end_rows(c).len(),
        i < spec_start_rows(c).len(),
    ensures
        spec_start_rows(c)[i] < spec_end_rows(c)[i + 1],
{
    let e = spec_end_rows(c)[i + 1];
    lemma_rows_upto_index(c, c.len() as int, end_pred(), i + 1);
    assert(spec_rows_upto(c, e, end_pred()).len() == i + 1);
    assert(c[e - 1]);
    lemma_count_diff(c, e);
    assert(spec_rows_upto(c, e, start_pred()).len() >= i + 1);
    lemma_rows_upto_index(c, e, start_pred(), i);
    lemma_rows_upto_prefix(c, e, c.len() as int, start_pred());
}

/// When the channel begins on, the `(i + 1)`-th END comes strictly
/// before the `(i + 1)`-th START, so double-support intervals do not
/// overlap.
pub proof fn lemma_end_before_next_start(c: Seq<bool>, i: int)
    requires
        c.len() > 0,
        c[0],
        0 <= i,
        i + 1 < spec_start_rows(c).len(),
        i + 1 < spec_end_rows(c).len(),
    ensures
        spec_end_rows(c)[i + 1] < spec_start_rows(c)[i + 1],
{
    let s = spec_start_rows(c)[i + 1];
    lemma_rows_upto_index(c, c.len() as int, start_pred(), i + 1);
    assert(spec_rows_upto(c, s, start_pred()).len() == i + 1);
    assert(!c[s - 1]);
    lemma_count_diff(c, s);
    assert(spec_rows_upto(c, s, end_pred()).len() >= i + 2);
    lemma_rows_upto_index(c, s, end_pred(), i + 1);
    lemma_rows_upto_prefix(c, s, c.len() as int, end_pred());
}

/// Collects the START and END times of a channel, in file order.
pub fn edge_times(t: &Vec<i64>, c: &Vec<bool>) -> (r: (Vec<i64>, Vec<i64>))
    requires
        t@.len() == c@.len(),
    ensures
        r.0@ == times_at(t@, spec_start_rows(c@)),
        r.1@ == times_at(t@, spec_end_rows(c@)),
{
    let mut starts: Vec<i64> = Vec::new();
    let mut ends: Vec<i64> = Vec::new();
    let n = c.len();
    let mut i: usize = 1;
    while i < n
        invariant
            1 <= i <= n || (n == 0 && i == 1),
            n == c@.len(),
            t@.len() == c@.len(),
            starts@ == times_at(t@, spec_rows_upto(c@, i as int, start_pred())),
            ends@ == times_at(t@, spec_rows_upto(c@, i as int, end_pred())),
        decreases n - i,
    {
        if !c[i - 1] && c[i] {
            starts.push(t[i]);
            proof {
                let rows = spec_rows_upto(c@, i as int, start_pred());
                assert(spec_rows_upto(c@, i + 1, start_pred()) == rows.push(i as int));
                assert(times_at(t@, rows.push(i as int)) =~= times_at(t@, rows).push(
                    t@[i as int],
                ));
                assert(spec_rows_upto(c@, i + 1, end_pred()) == spec_rows_upto(
                    c@,
                    i as int,
                    end_pred(),
                ));
            }
        } else if c[i - 1] && !c[i] {
            ends.push(t[i]);
            proof {
                let rows = spec_rows_upto(c@, i as int, end_pred());
                assert(spec_rows_upto(c@, i + 1, end_pred()) == rows.push(i as int));
                assert(times_at(t@, rows.push(i as int)) =~= times_at(t@, rows).push(
                    t@[i as int],
                ));
                assert(spec_rows_upto(c@, i + 1, start_pred()) == spec_rows_upto(
                    c@,
                    i as int,
                    start_pred(),
                ));
            }
        } else {
            proof {
                assert(spec_rows_upto(c@, i + 1, start_pred()) == spec_rows_upto(
                    c@,
                    i as int,
                    start_pred(),
                ));
                assert(spec_rows_upto(c@, i + 1, end_pred()) == spec_rows_upto(
                    c@,
                    i as int,
                    end_pred(),
                ));
            }
        }
        i = i + 1;
    }
    proof {
        if n == 0 {
            assert(spec_rows_upto(c@, 0, start_pred()) =~= Seq::<int>::empty());
            assert(spec_rows_upto(c@, 0, end_pred()) =~= Seq::<int>::empty());
            assert(times_at(t@, Seq::<int>::empty()) =~= Seq::<i64>::empty());
        }
    }
    (starts, ends)
}

/// Collects the times of all edges of a channel, merged in file order.
pub fn merged_edge_times(t: &Vec<i64>, c: &Vec<bool>) -> (r: Vec<i64>)
    requires
        t@.len() == c@.len(),
    ensures
        r@ == times_at(t@, spec_edge_rows(c@)),
{
    let mut out: Vec<i64> = Vec::new();
    let n = c.len();
    let mut i: usize = 1;
    while i < n
        invariant
            1 <= i <= n || (n == 0 && i == 1),
            n == c@.len(),
            t@.len() == c@.len(),
            out@ == times_at(t@, spec_rows_upto(c@, i as int, edge_pred())),
        decreases n - i,
    {
        if c[i - 1] != c[i] {
            out.push(t[i]);
            proof {
                let rows = spec_rows_upto(c@, i as int, edge_pred());
                assert(spec_rows_upto(c@, i + 1, edge_pred()) == rows.push(i as int));
                assert(times_at(t@, rows.push(i as int)) =~= times_at(t@, rows).push(
                    t@[i as int],
                ));
            }
        } else {
            proof {
                assert(spec_rows_upto(c@, i + 1, edge_pred()) == spec_rows_upto(
                    c@,
                    i as int,
                    edge_pred(),
                ));
            }
        }
        i = i + 1;
    }
    proof {
        if n == 0 {
            assert(spec_rows_upto(c@, 0, edge_pred()) =~= Seq::<int>::empty());
            assert(times_at(t@, Seq::<int>::empty()) =~= Seq::<i64>::empty());
        }
    }
    out
}

/// The single-support pairing as a value: the merged edge times with
/// the first and last dropped, paired two by two.
pub open spec fn spec_support_pairs(t: Seq<i64>, c: Seq<bool>) -> Seq<(i64, i64)> {
    let m = times_at(t, spec_edge_rows(c));
    Seq::new(
        if m.len() >= 2 {
            ((m.len() - 2) / 2) as nat
        } else {
            0
        },
        |i: int| (m[2 * i + 1], m[2 * i + 2]),
    )
}

/// The double-support pairing as a value: `start[i]` with `end[i + 1]`.
pub open spec fn spec_db_pairs(t: Seq<i64>, c: Seq<bool>) -> Seq<(i64, i64)> {
    let st = times_at(t, spec_start_rows(c));
    let en = times_at(t, spec_end_rows(c));
    Seq::new(
        if st.len() >= 1 && en.len() >= 1 {
            if st.len() <= en.len() {
                (st.len() - 1) as nat
            } else {
                (en.len() - 1) as nat
            }
        } else {
            0
        },
        |i: int| (st[i], en[i + 1]),
    )
}

/// The single-support pairing: drop the first and last merged edge time
/// and pair the remainder two by two. Every interval runs forward and no
/// two intervals overlap.
pub fn support_intervals(t: &Vec<i64>, c: &Vec<bool>) -> (r: Vec<(i64, i64)>)
    requires
        t@.len() == c@.len(),
        spec_strictly_increasing(t@),
    ensures
        ({
            let m = times_at(t@, spec_edge_rows(c@));
            &&& r@.len() == (if m.len() >= 2 {
                (m.len() - 2) / 2
            } else {
                0int
            })
            &&& forall|i: int| 0 <= i < r@.len() ==> #[trigger] r@[i] == (m[2 * i + 1], m[2 * i + 2])
            &&& forall|i: int| 0 <= i < r@.len() ==> (#[trigger] r@[i]).0 < r@[i].1
            &&& forall|i: int| 0 <= i && i + 1 < r@.len() ==> (#[trigger] r@[i]).1 < r@[i + 1].0
            &&& r@ == spec_support_pairs(t@, c@)
        }),
{
    let m = merged_edge_times(t, c);
    proof {
        lemma_rows_upto_sorted(c@, c@.len() as int, edge_pred());
        assert forall|a: int, b: int|
            0 <= a < b < spec_edge_rows(c@).len() implies times_at(t@, spec_edge_rows(c@))[a]
            < times_at(t@, spec_edge_rows(c@))[b] by {
            lemma_rows_upto_index(c@, c@.len() as int, edge_pred(), a);
            lemma_rows_upto_index(c@, c@.len() as int, edge_pred(), b);
        }
    }
    let mut out: Vec<(i64, i64)> = Vec::new();
    if m.len() < 2 {
        return out;
    }
    let mut j: usize = 1;
    while j < m.len() - 2
        invariant
            m@.len() >= 2,
            m@ == times_at(t@, spec_edge_rows(c@)),
            forall|a: int, b: int| 0 <= a < b < m@.len() ==> m@[a] < m@[b],
            j == 2 * out@.len() + 1,
            out@.len() <= (m@.len() - 2) / 2,
            forall|k: int| 0 <= k < out@.len() ==> #[trigger] out@[k] == (m@[2 * k + 1], m@[2 * k
                + 2]),
        decreases m@.len() - j,
    {
        out.push((m[j], m[j + 1]));
        j = j + 2;
    }
    proof {
        assert(out@.len() == (m@.len() - 2) / 2);
        assert forall|i: int| 0 <= i < out@.len() implies (#[trigger] out@[i]).0 < out@[i].1 by {
            assert(out@[i] == (m@[2 * i + 1], m@[2 * i + 2]));
        }
        assert forall|i: int| 0 <= i && i + 1 < out@.len() implies (#[trigger] out@[i]).1 < out@[i
            + 1].0 by {
            assert(out@[i] == (m@[2 * i + 1], m@[2 * i + 2]));
            assert(out@[i + 1] == (m@[2 * (i + 1) + 1], m@[2 * (i + 1) + 2]));
        }
        assert(out@ =~= spec_support_pairs(t@, c@));
    }
    out
}

/// The double-support pairing: `start[i]` with `end[i + 1]`. Every
/// interval runs forward; when the channel begins on (as a recording at
/// rest does) no two intervals overlap.
pub fn db_intervals(t: &Vec<i64>, c: &Vec<bool>) -> (r: Vec<(i64, i64)>)
    requires
        t@.len() == c@.len(),
        spec_strictly_increasing(t@),
    ensures
        ({
            let st = times_at(t@, spec_start_rows(c@));
            let en = times_at(t@, spec_end_rows(c@));
            let count = if st.len() >= 1 && en.len() >= 1 {
                if st.len() - 1 <= en.len() - 1 {
                    st.len() - 1
                } else {
                    en.len() - 1
                }
            } else {
                0int
            };
            &&& r@.len() == count
            &&& forall|i: int| 0 <= i < r@.len() ==> #[trigger] r@[i] == (st[i], en[i + 1])
            &&& forall|i: int| 0 <= i < r@.len() ==> (#[trigger] r@[i]).0 < r@[i].1
            &&& (c@.len() > 0 && c@[0]) ==> forall|i: int|
                0 <= i && i + 1 < r@.len() ==> (#[trigger] r@[i]).1 < r@[i + 1].0
            &&& r@ == spec_db_pairs(t@, c@)
        }),
{
    let (st, en) = edge_times(t, c);
    let mut out: Vec<(i64, i64)> = Vec::new();
    if st.len() == 0 || en.len() == 0 {
        return out;
    }
    let count = if st.len() - 1 <= en.len() - 1 {
        st.len() - 1
    } else {
        en.len() - 1
    };
    let mut i: usize = 0;
    while i < count
        invariant
            i <= count,
            count <= st@.len(),
            count + 1 <= en@.len(),
            st@ == times_at(t@, spec_start_rows(c@)),
            en@ == times_at(t@, spec_end_rows(c@)),
            out@.len() == i,
            forall|k: int| 0 <= k < i ==> #[trigger] out@[k] == (st@[k], en@[k + 1]),
        decreases count - i,
    {
        out.push((st[i], en[i + 1]));
        i = i + 1;
    }
    proof {
        assert forall|k: int| 0 <= k < out@.len() implies (#[trigger] out@[k]).0 < out@[k].1 by {
            assert(out@[k] == (st@[k], en@[k + 1]));
            lemma_start_before_next_end(c@, k);
            lemma_rows_upto_index(c@, c@.len() as int, start_pred(), k);
            lemma_rows_upto_index(c@, c@.len() as int, end_pred(), k + 1);
            assert(st@[k] == t@[spec_start_rows(c@)[k]]);
            assert(en@[k + 1] == t@[spec_end_rows(c@)[k + 1]]);
        }
        if c@.len() > 0 && c@[0] {
            assert forall|k: int| 0 <= k && k + 1 < out@.len() implies (#[trigger] out@[k]).1
                < out@[k + 1].0 by {
                assert(out@[k] == (st@[k], en@[k + 1]));
                assert(out@[k + 1] == (st@[k + 1], en@[k + 2]));
                lemma_end_before_next_start(c@, k);
                lemma_rows_upto_index(c@, c@.len() as int, start_pred(), k + 1);
                lemma_rows_upto_index(c@, c@.len() as int, end_pred(), k + 1);
                assert(st@[k + 1] == t@[spec_start_rows(c@)[k + 1]]);
                assert(en@[k + 1] == t@[spec_end_rows(c@)[k + 1]]);
            }
        }
        assert(out@ =~= spec_db_pairs(t@, c@));
    }
    out
}

/// Edge-pairing soundness: the START times are exactly the times of rows
/// where the channel turns on, the END times those where it turns off,
/// and on a channel that begins off each START comes strictly before the
/// END at the same position.
pub proof fn lemma_edge_pairing_sound(t: Seq<i64>, c: Seq<bool>)
    requires
        t.len() == c.len(),
        spec_strictly_increasing(t),
        c.len() > 0 ==> !c[0],
    ensures
        forall|j: int|
            0 <= j < spec_start_rows(c).len() ==> spec_is_start(
                c,
                #[trigger] spec_start_rows(c)[j],
            ) && times_at(t, spec_start_rows(c))[j] == t[spec_start_rows(c)[j]],
        forall|j: int|
            0 <= j < spec_end_rows(c).len() ==> spec_is_end(c, #[trigger] spec_end_rows(c)[j])
                && times_at(t, spec_end_rows(c))[j] == t[spec_end_rows(c)[j]],
        forall|j: int|
            0 <= j < spec_end_rows(c).len() ==> j < spec_start_rows(c).len() && times_at(
                t,
                spec_start_rows(c),
            )[j] < #[trigger] times_at(t, spec_end_rows(c))[j],
{
    assert forall|j: int| 0 <= j < spec_start_rows(c).len() implies spec_is_start(
        c,
        #[trigger] spec_start_rows(c)[j],
    ) && times_at(t, spec_start_rows(c))[j] == t[spec_start_rows(c)[j]] by {
        lemma_rows_upto_index(c, c.len() as int, start_pred(), j);
    }
    assert forall|j: int| 0 <= j < spec_end_rows(c).len() implies spec_is_end(
        c,
        #[trigger] spec_end_rows(c)[j],
    ) && times_at(t, spec_end_rows(c))[j] == t[spec_end_rows(c)[j]] by {
        lemma_rows_upto_index(c, c.len() as int, end_pred(), j);
    }
    if c.len() > 0 {
        lemma_count_diff(c, c.len() as int);
    } else {
        assert(spec_rows_upto(c, 0, start_pred()) =~= Seq::<int>::empty());
        assert(spec_rows_upto(c, 0, end_pred()) =~= Seq::<int>::empty());
    }
    assert(spec_end_rows(c).len() <= spec_start_rows(c).len());
    assert forall|j: int| 0 <= j < spec_end_rows(c).len() implies j < spec_start_rows(c).len()
        && times_at(t, spec_start_rows(c))[j] < #[trigger] times_at(t, spec_end_rows(c))[j] by {
        lemma_start_before_end(c, j);
        lemma_rows_upto_index(c, c.len() as int, start_pred(), j);
        lemma_rows_upto_index(c, c.len() as int, end_pred(), j);
        assert(times_at(t, spec_start_rows(c))[j] == t[spec_start_rows(c)[j]]);
        assert(times_at(t, spec_end_rows(c))[j] == t[spec_end_rows(c)[j]]);
    }
}

/// Checks that a time column is strictly increasing, as the pipeline
/// requires.
pub fn check_strictly_increasing(t: &Vec<i64>) -> (r: bool)
    ensures
        r == spec_strictly_increasing(t@),
{
    let n = t.len();
    let mut i: usize = 1;
    while i < n
        invariant
            1 <= i <= n || (n <= 1 && i == 1),
            n == t@.len(),
            forall|a: int, b: int| 0 <= a < b < i ==> t@[a] < t@[b],
        decreases n - i,
    {
        if t[i - 1] >= t[i] {
            assert(!spec_strictly_increasing(t@));
            return false;
        }
        i = i + 1;
    }
    true
}

} // verus!
