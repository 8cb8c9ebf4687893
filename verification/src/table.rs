//! The in-memory table a recording is loaded into, and the column
//! remapper.
//!
//! A table is a list of named, equally long columns of real samples (in
//! ticks), integer codes, booleans or text. The remapper applies a
//! two-column dictionary of raw and canonical names: a table wider than
//! the dictionary is cut down to the raw names and renamed to the
//! canonical ones position by position; a table already cut down passes
//! through unchanged.

use vstd::prelude::*;

use crate::errors::AnalysisError;
use crate::header::{lemma_index_of_props, lemma_index_of_scan, spec_index_of};
use crate::strutil::{spec_views, str_eq};

verus! {

/// The payload of one column.
pub enum ColData {
    /// Sampled real signal, in ticks.
    Reals(Vec<i64>),
    /// Raw integer codes.
    Ints(Vec<i64>),
    /// A boolean channel.
    Bools(Vec<bool>),
    /// Text cells.
    Texts(Vec<String>),
}

/// One named column.
pub struct Column {
    pub name: String,
    pub data: ColData,
}

/// A list of named columns.
pub struct Table {
    pub cols: Vec<Column>,
}

/// Number of rows a column payload holds.
pub open spec fn spec_data_len(d: ColData) -> nat {
    match d {
        ColData::Reals(v) => v@.len(),
        ColData::Ints(v) => v@.len(),
        ColData::Bools(v) => v@.len(),
        ColData::Texts(v) => v@.len(),
    }
}

/// Whether two column payloads hold the same kind and content.
pub open spec fn spec_data_eq(a: ColData, b: ColData) -> bool {
    match (a, b) {
        (ColData::Reals(x), ColData::Reals(y)) => x@ == y@,
        (ColData::Ints(x), ColData::Ints(y)) => x@ == y@,
        (ColData::Bools(x), ColData::Bools(y)) => x@ == y@,
        (ColData::Texts(x), ColData::Texts(y)) => spec_views(x@) == spec_views(y@),
        _ => false,
    }
}

/// The names of a column list, in order.
pub open spec fn spec_col_names(cols: Seq<Column>) -> Seq<Seq<char>> {
    cols.map(|_i: int, c: Column| c.name@)
}

impl Table {
    /// Every column has the same number of rows.
    pub open spec fn wf(&self) -> bool {
        forall|i: int|
            0 <= i < self.cols@.len() ==> spec_data_len(#[trigger] self.cols@[i].data)
                == spec_data_len(self.cols@[0].data)
    }

    /// Index of the first column with the given name.
    pub fn find_column(&self, name: &str) -> (r: Option<usize>)
        ensures
            match r {
                Some(j) => j < self.cols@.len() && spec_index_of(
                    spec_col_names(self.cols@),
                    name@,
                ) == Some(j as int),
                None => spec_index_of(spec_col_names(self.cols@), name@) == Option::<int>::None,
            },
    {
        let names = Ghost(spec_col_names(self.cols@));
        let mut j: usize = 0;
        while j < self.cols.len()
            invariant
                j <= self.cols@.len(),
                names@ == spec_col_names(self.cols@),
                forall|k: int| 0 <= k < j ==> (#[trigger] self.cols@[k]).name@ != name@,
            decreases self.cols@.len() - j,
        {
            if str_eq(self.cols[j].name.as_str(), name) {
                proof {
                    assert forall|k: int| 0 <= k < j implies names@[k] != name@ by {
                        assert(names@[k] == self.cols@[k].name@);
                    }
                    assert(names@[j as int] == self.cols@[j as int].name@);
                    lemma_index_of_scan(names@, name@, j as int);
                }
                return Some(j);
            }
            j = j + 1;
        }
        proof {
            assert forall|k: int| 0 <= k < names@.len() implies names@[k] != name@ by {
                assert(names@[k] == self.cols@[k].name@);
            }
            lemma_index_of_scan(names@, name@, names@.len() as int);
        }
        None
    }
}

/// One rename step: the first column named `o` takes the name `n`, or
/// the raw name is reported missing.
pub open spec fn spec_rename1(names: Seq<Seq<char>>, o: Seq<char>, n: Seq<char>) -> Result<
    Seq<Seq<char>>,
    Seq<char>,
> {
    match spec_index_of(names, o) {
        Some(i) => Ok(names.update(i, n)),
        None => Err(o),
    }
}

/// All rename steps of a dictionary, applied left to right; a missing
/// raw name stops the walk and is reported.
pub open spec fn spec_rename_all(
    names: Seq<Seq<char>>,
    origs: Seq<Seq<char>>,
    news: Seq<Seq<char>>,
) -> Result<Seq<Seq<char>>, Seq<char>>
    decreases origs.len(),
{
    if origs.len() == 0 || origs.len() != news.len() {
        Ok(names)
    } else {
        match spec_rename1(names, origs[0], news[0]) {
            Ok(m) => spec_rename_all(m, origs.skip(1), news.skip(1)),
            Err(o) => Err(o),
        }
    }
}

/// Renames columns position by position after the dictionary, leaving
/// the data untouched.
pub fn rename_df(t: &mut Table, origs: &Vec<String>, news: &Vec<String>) -> (r: Result<
    (),
    AnalysisError,
>)
    requires
        origs@.len() == news@.len(),
    ensures
        final (t).cols@.len() == old(t).cols@.len(),
        forall|i: int|
            0 <= i < final (t).cols@.len() ==> spec_data_eq(
                (#[trigger] final (t).cols@[i]).data,
                old(t).cols@[i].data,
            ),
        match r {
            Ok(()) => spec_rename_all(
                spec_col_names(old(t).cols@),
                spec_views(origs@),
                spec_views(news@),
            ) == Ok::<_, Seq<char>>(spec_col_names(final (t).cols@)),
            Err(e) => e matches AnalysisError::UnknownColumn(n) && spec_rename_all(
                spec_col_names(old(t).cols@),
                spec_views(origs@),
                spec_views(news@),
            ) == Err::<Seq<Seq<char>>, _>(n@),
        },
{
    let mut k: usize = 0;
    proof {
        assert(spec_views(origs@).skip(0) =~= spec_views(origs@));
        assert(spec_views(news@).skip(0) =~= spec_views(news@));
    }
    while k < origs.len()
        invariant
            origs@.len() == news@.len(),
            k <= origs@.len(),
            t.cols@.len() == old(t).cols@.len(),
            forall|i: int|
                0 <= i < t.cols@.len() ==> spec_data_eq(
                    (#[trigger] t.cols@[i]).data,
                    old(t).cols@[i].data,
                ),
            spec_rename_all(
                spec_col_names(old(t).cols@),
                spec_views(origs@),
                spec_views(news@),
            ) == spec_rename_all(
                spec_col_names(t.cols@),
                spec_views(origs@).skip(k as int),
                spec_views(news@).skip(k as int),
            ),
        decreases origs@.len() - k,
    {
        let names_before = Ghost(spec_col_names(t.cols@));
        let idx = t.find_column(origs[k].as_str());
        proof {
            assert(spec_views(origs@).skip(k as int)[0] == origs@[k as int]@);
            assert(spec_views(news@).skip(k as int)[0] == news@[k as int]@);
            assert(spec_views(origs@).skip(k as int).skip(1) =~= spec_views(origs@).skip(k + 1));
            assert(spec_views(news@).skip(k as int).skip(1) =~= spec_views(news@).skip(k + 1));
        }
        match idx {
            Some(i) => {
                let col = t.cols.remove(i);
                let renamed = Column { name: news[k].clone(), data: col.data };
                t.cols.insert(i, renamed);
                proof {
                    assert(spec_col_names(t.cols@) =~= names_before@.update(
                        i as int,
                        news@[k as int]@,
                    ));
                }
                k = k + 1;
            },
            None => {
                return Err(AnalysisError::UnknownColumn(origs[k].clone()));
            },
        }
    }
    proof {
        assert(spec_views(origs@).skip(origs@.len() as int).len() == 0);
    }
    Ok(())
}

/// A rename walk over a table whose trailing columns are exactly the
/// raw names still to be renamed never misses: each step's raw name is
/// present at its own position, whatever the earlier steps renamed.
pub proof fn lemma_rename_all_ok(pre: Seq<Seq<char>>, origs: Seq<Seq<char>>, news: Seq<Seq<char>>)
    requires
        origs.len() == news.len(),
    ensures
        spec_rename_all(pre + origs, origs, news) is Ok,
    decreases origs.len(),
{
    if origs.len() > 0 {
        let cur = pre + origs;
        assert(cur[pre.len() as int] == origs[0]);
        lemma_index_of_props(cur, origs[0]);
        match spec_index_of(cur, origs[0]) {
            None => {
                assert(false);
            },
            Some(i) => {
                assert(i <= pre.len());
                let updated = cur.update(i, news[0]);
                if i < pre.len() {
                    let pre2 = pre.update(i, news[0]).push(origs[0]);
                    assert(updated =~= pre2 + origs.skip(1));
                    lemma_rename_all_ok(pre2, origs.skip(1), news.skip(1));
                } else {
                    let pre2 = pre.push(news[0]);
                    assert(updated =~= pre2 + origs.skip(1));
                    lemma_rename_all_ok(pre2, origs.skip(1), news.skip(1));
                }
            },
        }
    }
}

/// Clones a column payload, content for content.
fn clone_data(d: &ColData) -> (r: ColData)
    ensures
        spec_data_eq(r, *d),
{
    match d {
        ColData::Reals(v) => ColData::Reals(v.clone()),
        ColData::Ints(v) => ColData::Ints(v.clone()),
        ColData::Bools(v) => ColData::Bools(v.clone()),
        ColData::Texts(v) => {
            let mut out: Vec<String> = Vec::new();
            let mut i: usize = 0;
            while i < v.len()
                invariant
                    i <= v@.len(),
                    spec_views(out@) == spec_views(v@).take(i as int),
                decreases v@.len() - i,
            {
                let s = v[i].clone();
                proof {
                    assert(spec_views(out@.push(s)) =~= spec_views(out@).push(v@[i as int]@));
                    assert(spec_views(v@).take(i + 1) =~= spec_views(v@).take(i as int).push(
                        spec_views(v@)[i as int],
                    ));
                    assert(spec_views(v@)[i as int] == v@[i as int]@);
                }
                out.push(s);
                i = i + 1;
            }
            proof {
                assert(spec_views(v@).take(v@.len() as int) =~= spec_views(v@));
            }
            ColData::Texts(out)
        },
    }
}

/// Cuts the table down to the named columns, in dictionary order; a
/// missing name is reported.
pub fn select_columns(t: &Table, names: &Vec<String>) -> (r: Result<Table, AnalysisError>)
    ensures
        match r {
            Ok(t2) => {
                &&& t2.cols@.len() == names@.len()
                &&& forall|i: int|
                    0 <= i < names@.len() ==> (#[trigger] t2.cols@[i]).name@ == names@[i]@
                &&& forall|i: int|
                    0 <= i < names@.len() ==> (spec_index_of(
                        spec_col_names(t.cols@),
                        (#[trigger] names@[i])@,
                    ) matches Some(j) && spec_data_eq(t2.cols@[i].data, t.cols@[j].data))
            },
            Err(e) => e matches AnalysisError::UnknownColumn(n) && spec_index_of(
                spec_col_names(t.cols@),
                n@,
            ) == Option::<int>::None && exists|i: int|
                0 <= i < names@.len() && (#[trigger] names@[i])@ == n@,
        },
{
    let mut cols: Vec<Column> = Vec::new();
    let mut i: usize = 0;
    while i < names.len()
        invariant
            i <= names@.len(),
            cols@.len() == i,
            forall|m: int| 0 <= m < i ==> (#[trigger] cols@[m]).name@ == names@[m]@,
            forall|m: int|
                0 <= m < i ==> (spec_index_of(spec_col_names(t.cols@), (#[trigger] names@[m])@)
                    matches Some(j) && spec_data_eq(cols@[m].data, t.cols@[j].data)),
        decreases names@.len() - i,
    {
        match t.find_column(names[i].as_str()) {
            Some(j) => {
                let data = clone_data(&t.cols[j].data);
                cols.push(Column { name: names[i].clone(), data });
            },
            None => {
                return Err(AnalysisError::UnknownColumn(names[i].clone()));
            },
        }
        i = i + 1;
    }
    Ok(Table { cols })
}

/// Applies the rename dictionary: a table wider than the dictionary is
/// cut down to the raw names and renamed to the canonical ones; a table
/// no wider passes through unchanged.
pub fn remap_columns(t: Table, origs: &Vec<String>, news: &Vec<String>) -> (r: Result<
    Table,
    AnalysisError,
>)
    requires
        origs@.len() == news@.len(),
    ensures
        match r {
            Ok(t2) => {
                if t.cols@.len() > news@.len() {
                    &&& t2.cols@.len() == origs@.len()
                    &&& spec_rename_all(
                        spec_views(origs@),
                        spec_views(origs@),
                        spec_views(news@),
                    ) == Ok::<_, Seq<char>>(spec_col_names(t2.cols@))
                    &&& forall|i: int|
                        0 <= i < origs@.len() ==> (spec_index_of(
                            spec_col_names(t.cols@),
                            (#[trigger] origs@[i])@,
                        ) matches Some(j) && spec_data_eq(t2.cols@[i].data, t.cols@[j].data))
                } else {
                    t2 == t
                }
            },
            Err(e) => t.cols@.len() > news@.len() && (e matches AnalysisError::UnknownColumn(n)
                && spec_index_of(spec_col_names(t.cols@), n@) is None),
        },
        (t.cols@.len() <= news@.len() || (forall|i: int|
            0 <= i < origs@.len() ==> spec_index_of(
                spec_col_names(t.cols@),
                (#[trigger] origs@[i])@,
            ) is Some)) ==> r is Ok,
{
    if t.cols.len() > news.len() {
        let mut selected = match select_columns(&t, origs) {
            Ok(s) => s,
            Err(e) => {
                proof {
                    if forall|i: int|
                        0 <= i < origs@.len() ==> spec_index_of(
                            spec_col_names(t.cols@),
                            (#[trigger] origs@[i])@,
                        ) is Some {
                        match &e {
                            AnalysisError::UnknownColumn(n) => {
                                let w = choose|i: int|
                                    0 <= i < origs@.len() && (#[trigger] origs@[i])@ == n@;
                                assert(spec_index_of(spec_col_names(t.cols@), origs@[w]@)
                                    is Some);
                                assert(false);
                            },
                            _ => {},
                        }
                    }
                }
                return Err(e);
            },
        };
        let datas = Ghost(selected.cols@.map(|_i: int, c: Column| c.data));
        let prenames = Ghost(spec_col_names(selected.cols@));
        proof {
            assert forall|i: int| 0 <= i < prenames@.len() implies prenames@[i] == spec_views(
                origs@,
            )[i] by {
                assert(prenames@[i] == selected.cols@[i].name@);
                assert(spec_views(origs@)[i] == origs@[i]@);
            }
            assert(prenames@ =~= spec_views(origs@));
        }
        match rename_df(&mut selected, origs, news) {
            Ok(()) => {
                proof {
                    assert(spec_col_names(selected.cols@).len() == selected.cols@.len());
                    assert forall|i: int| 0 <= i < origs@.len() implies (spec_index_of(
                        spec_col_names(t.cols@),
                        (#[trigger] origs@[i])@,
                    ) matches Some(j) && spec_data_eq(selected.cols@[i].data, t.cols@[j].data)) by {
                        assert(datas@[i] == selected.cols@[i].data || spec_data_eq(
                            selected.cols@[i].data,
                            datas@[i],
                        ));
                        match spec_index_of(spec_col_names(t.cols@), origs@[i]@) {
                            Some(j) => {
                                assert(spec_data_eq(datas@[i], t.cols@[j].data));
                                lemma_data_eq_trans(
                                    selected.cols@[i].data,
                                    datas@[i],
                                    t.cols@[j].data,
                                );
                            },
                            None => {},
                        }
                    }
                }
                Ok(selected)
            },
            Err(e) => {
                proof {
                    lemma_rename_all_ok(
                        Seq::<Seq<char>>::empty(),
                        spec_views(origs@),
                        spec_views(news@),
                    );
                    assert(Seq::<Seq<char>>::empty() + spec_views(origs@) =~= spec_views(origs@));
                    assert(false);
                }
                Err(e)
            },
        }
    } else {
        Ok(t)
    }
}

/// Content equality of column payloads carries across a middle term.
pub proof fn lemma_data_eq_trans(a: ColData, b: ColData, c: ColData)
    requires
        spec_data_eq(a, b),
        spec_data_eq(b, c),
    ensures
        spec_data_eq(a, c),
{
}

/// Renaming a table whose columns are exactly the dictionary's raw
/// names, with canonical names foreign to the raw ones, yields exactly
/// the canonical names: the rename is a bijection between the two name
/// lists.
pub proof fn lemma_rename_bijective(origs: Seq<Seq<char>>, news: Seq<Seq<char>>)
    requires
        origs.len() == news.len(),
        forall|i: int, j: int|
            0 <= i < news.len() && 0 <= j < origs.len() ==> #[trigger] news[i] != #[trigger] origs[j],
    ensures
        spec_rename_all(origs, origs, news) == Ok::<_, Seq<char>>(news),
        spec_rename_all(origs, origs, news) matches Ok(m) && m.to_set() == news.to_set(),
{
    lemma_rename_walk(origs, news, 0);
    assert(news.take(0) + origs.skip(0) =~= origs);
    assert(origs.skip(0) =~= origs);
    assert(news.skip(0) =~= news);
}

/// The inductive walk behind [`lemma_rename_bijective`]: after `k`
/// steps the first `k` names are canonical and the rest still raw.
proof fn lemma_rename_walk(origs: Seq<Seq<char>>, news: Seq<Seq<char>>, k: int)
    requires
        origs.len() == news.len(),
        0 <= k <= origs.len(),
        forall|i: int, j: int|
            0 <= i < news.len() && 0 <= j < origs.len() ==> #[trigger] news[i] != #[trigger] origs[j],
    ensures
        spec_rename_all(news.take(k) + origs.skip(k), origs.skip(k), news.skip(k)) == Ok::<
            _,
            Seq<char>,
        >(news),
    decreases origs.len() - k,
{
    let cur = news.take(k) + origs.skip(k);
    if k == origs.len() {
        assert(origs.skip(k).len() == 0);
        assert(cur =~= news);
    } else {
        assert forall|m: int| 0 <= m < k implies cur[m] != origs[k] by {
            assert(cur[m] == news[m]);
        }
        assert(cur[k] == origs.skip(k)[0]);
        assert(cur[k] == origs[k]);
        lemma_index_of_scan(cur, origs[k], k);
        assert(spec_index_of(cur, origs[k]) == Some(k));
        assert(origs.skip(k)[0] == origs[k]);
        assert(news.skip(k)[0] == news[k]);
        let updated = cur.update(k, news[k]);
        assert(updated =~= news.take(k + 1) + origs.skip(k + 1));
        assert(origs.skip(k).skip(1) =~= origs.skip(k + 1));
        assert(news.skip(k).skip(1) =~= news.skip(k + 1));
        lemma_rename_walk(origs, news, k + 1);
    }
}

/// Rename bijectivity on an arbitrary table: when the table's column
/// names are pairwise distinct, the dictionary's raw names are pairwise
/// distinct and all present, and the canonical names are pairwise
/// distinct and foreign to the table, the walk succeeds and renames
/// exactly the listed columns in place — the column named after raw
/// name `i` now bears canonical name `i`, and every other column keeps
/// its name and position.
pub proof fn lemma_rename_bijective_general(
    names: Seq<Seq<char>>,
    origs: Seq<Seq<char>>,
    news: Seq<Seq<char>>,
)
    requires
        origs.len() == news.len(),
        forall|p: int, q: int| 0 <= p < q < names.len() ==> names[p] != names[q],
        forall|i: int, j: int| 0 <= i < j < origs.len() ==> origs[i] != origs[j],
        forall|i: int, j: int| 0 <= i < j < news.len() ==> news[i] != news[j],
        forall|i: int| 0 <= i < origs.len() ==> spec_index_of(names, #[trigger] origs[i]) is Some,
        forall|i: int, p: int|
            0 <= i < news.len() && 0 <= p < names.len() ==> #[trigger] news[i]
                != #[trigger] names[p],
    ensures
        spec_rename_all(names, origs, news) matches Ok(m) && m.len() == names.len() && (forall|
            p: int,
        |
            0 <= p < names.len() ==> #[trigger] m[p] == (match spec_index_of(origs, names[p]) {
                Some(i) => news[i],
                None => names[p],
            })),
    decreases origs.len(),
{
    if origs.len() == 0 {
        assert forall|p: int| 0 <= p < names.len() implies #[trigger] spec_index_of(
            origs,
            names[p],
        ) is None by {
            lemma_index_of_props(origs, names[p]);
        }
    } else {
        lemma_index_of_props(names, origs[0]);
        let p0 = spec_index_of(names, origs[0]).unwrap();
        assert(names[p0] == origs[0]);
        let renamed = names.update(p0, news[0]);
        // The hypotheses carry over to the renamed table and the tail
        // of the dictionary.
        assert forall|p: int, q: int| 0 <= p < q < renamed.len() implies renamed[p]
            != renamed[q] by {
            if p == p0 {
                assert(renamed[q] == names[q]);
            } else if q == p0 {
                assert(renamed[p] == names[p]);
            }
        }
        assert forall|i: int| 0 <= i < origs.skip(1).len() implies spec_index_of(
            renamed,
            #[trigger] origs.skip(1)[i],
        ) is Some by {
            let o = origs.skip(1)[i];
            assert(o == origs[i + 1]);
            lemma_index_of_props(names, o);
            let pi = spec_index_of(names, o).unwrap();
            assert(names[pi] == o);
            assert(pi != p0);
            assert(renamed[pi] == o);
            lemma_index_of_props(renamed, o);
            if spec_index_of(renamed, o) is None {
                assert(renamed[pi] != o);
            }
        }
        assert forall|i: int, p: int|
            0 <= i < news.skip(1).len() && 0 <= p < renamed.len() implies #[trigger] news.skip(1)[i]
            != #[trigger] renamed[p] by {
            assert(news.skip(1)[i] == news[i + 1]);
            if p == p0 {
                assert(renamed[p] == news[0]);
            } else {
                assert(renamed[p] == names[p]);
            }
        }
        lemma_rename_bijective_general(renamed, origs.skip(1), news.skip(1));
        let m = spec_rename_all(renamed, origs.skip(1), news.skip(1))->Ok_0;
        assert(spec_rename_all(names, origs, news) == Ok::<_, Seq<char>>(m)) by {
            assert(spec_rename1(names, origs[0], news[0]) == Ok::<_, Seq<char>>(renamed));
            assert(origs.skip(1).len() == news.skip(1).len());
        }
        // The tail walk's pointwise account matches the dictionary's.
        assert forall|p: int| 0 <= p < names.len() implies #[trigger] m[p] == (match spec_index_of(
            origs,
            names[p],
        ) {
            Some(i) => news[i],
            None => names[p],
        }) by {
            if p == p0 {
                lemma_index_of_scan(origs, origs[0], 0);
                assert(spec_index_of(origs, names[p0]) == Some(0int));
                assert(renamed[p0] == news[0]);
                lemma_index_of_props(origs.skip(1), news[0]);
                match spec_index_of(origs.skip(1), news[0]) {
                    Some(i2) => {
                        let o = origs.skip(1)[i2];
                        assert(o == origs[i2 + 1]);
                        lemma_index_of_props(names, o);
                        let pw = spec_index_of(names, o).unwrap();
                        assert(news[0] == names[pw]);
                        assert(false);
                    },
                    None => {},
                }
            } else {
                assert(renamed[p] == names[p]);
                lemma_index_of_props(origs, names[p]);
                match spec_index_of(origs, names[p]) {
                    None => {
                        lemma_index_of_props(origs.skip(1), names[p]);
                        match spec_index_of(origs.skip(1), names[p]) {
                            Some(i2) => {
                                assert(origs[i2 + 1] == names[p]);
                            },
                            None => {},
                        }
                    },
                    Some(i) => {
                        assert(origs[i] == names[p]);
                        assert(i != 0) by {
                            if i == 0 {
                                assert(names[p] == names[p0]);
                            }
                        }
                        assert forall|k: int| 0 <= k < i - 1 implies origs.skip(1)[k]
                            != names[p] by {
                            assert(origs.skip(1)[k] == origs[k + 1]);
                        }
                        assert(origs.skip(1)[i - 1] == names[p]);
                        lemma_index_of_scan(origs.skip(1), names[p], i - 1);
                        assert(news.skip(1)[i - 1] == news[i]);
                    },
                }
            }
        }
    }
}

/// Column-name delta between a dictionary's raw names and a file's
/// schema: what the schema added, and what it lost.
pub fn diff_columns(origs: &Vec<String>, schema: &Vec<String>) -> (r: (Vec<String>, Vec<String>))
    ensures
        spec_views(r.0@) == spec_views(schema@).filter(
            |n: Seq<char>| spec_index_of(spec_views(origs@), n) is None,
        ),
        spec_views(r.1@) == spec_views(origs@).filter(
            |n: Seq<char>| spec_index_of(spec_views(schema@), n) is None,
        ),
{
    let added = names_not_in(schema, origs);
    let removed = names_not_in(origs, schema);
    (added, removed)
}

/// The elements of `from` whose name does not occur in `avoid`, in
/// order.
fn names_not_in(from: &Vec<String>, avoid: &Vec<String>) -> (r: Vec<String>)
    ensures
        spec_views(r@) == spec_views(from@).filter(
            |n: Seq<char>| spec_index_of(spec_views(avoid@), n) is None,
        ),
{
    let pred = Ghost(|n: Seq<char>| spec_index_of(spec_views(avoid@), n) is None);
    let mut out: Vec<String> = Vec::new();
    let mut i: usize = 0;
    proof {
        reveal(Seq::filter);
        assert(spec_views(from@).take(0) =~= Seq::<Seq<char>>::empty());
        assert(spec_views(out@) =~= spec_views(from@).take(0).filter(pred@));
    }
    while i < from.len()
        invariant
            i <= from@.len(),
            pred@ == (|n: Seq<char>| spec_index_of(spec_views(avoid@), n) is None),
            spec_views(out@) == spec_views(from@).take(i as int).filter(pred@),
        decreases from@.len() - i,
    {
        let found = crate::strutil::contains_str(avoid, from[i].as_str());
        proof {
            if !found {
                assert forall|m: int| 0 <= m < spec_views(avoid@).len() implies spec_views(
                    avoid@,
                )[m] != from@[i as int]@ by {
                    assert(spec_views(avoid@)[m] == avoid@[m]@);
                }
                lemma_index_of_scan(spec_views(avoid@), from@[i as int]@, avoid@.len() as int);
            } else {
                lemma_index_of_props(spec_views(avoid@), from@[i as int]@);
                if spec_index_of(spec_views(avoid@), from@[i as int]@) is None {
                    let w = choose|k: int|
                        0 <= k < avoid@.len() && (#[trigger] avoid@[k])@ == from@[i as int]@;
                    assert(spec_views(avoid@)[w] == avoid@[w]@);
                }
            }
            reveal(Seq::filter);
            assert(spec_views(from@).take(i + 1).drop_last() =~= spec_views(from@).take(i as int));
            assert(spec_views(from@).take(i + 1).last() == spec_views(from@)[i as int]);
            assert(spec_views(from@)[i as int] == from@[i as int]@);
        }
        if !found {
            let s = from[i].clone();
            proof {
                assert(spec_views(out@.push(s)) =~= spec_views(out@).push(from@[i as int]@));
            }
            out.push(s);
        }
        i = i + 1;
    }
    proof {
        assert(spec_views(from@).take(from@.len() as int) =~= spec_views(from@));
    }
    out
}

} // verus!
