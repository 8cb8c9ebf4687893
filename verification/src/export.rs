//! The per-recording export row and the cohort concatenation.
//!
//! One row holds the file name, the selection string, the four mean-gap
//! columns, and, for every (variable, position) pair in enumeration
//! order, ten columns: the five-number summary of the per-cycle minima
//! followed by that of the per-cycle maxima. The median is carried as
//! its two central elements so the row stays in exact ticks; a signal
//! with no sampled cycle exports missing cells.

use vstd::prelude::*;

use crate::aggregate::GapStats;
use crate::config::{spec_name_string, Variable};
use crate::pipeline::{spec_position_at, spec_variable_at};
use crate::quantile::Quantile;
use crate::strutil::{spec_views, str_eq};

verus! {

/// One cell of an export row.
pub enum Cell {
    /// A text field.
    Text(String),
    /// A tick-valued rank of a five-number summary.
    Ticks(i64),
    /// The median, as the two central elements of the sorted sample.
    Median { lo: i64, hi: i64 },
    /// A mean gap, as the exact sum and count of the durations.
    MeanGap { sum: i128, count: usize },
    /// No value: the signal had no sampled cycle, or a concatenated
    /// file lacked the column.
    Missing,
}

/// One export row: column names and their cells, in step.
pub struct ExportRow {
    pub names: Vec<String>,
    pub cells: Vec<Cell>,
}

impl ExportRow {
    /// One cell per name.
    pub open spec fn wf(&self) -> bool {
        self.names@.len() == self.cells@.len()
    }
}

/// The column-name suffix of one rank of a five-number summary.
pub open spec fn spec_suffix(k: int) -> Seq<char> {
    if k == 0 {
        "_min"@
    } else if k == 1 {
        "_Q1"@
    } else if k == 2 {
        "_median"@
    } else if k == 3 {
        "_Q3"@
    } else {
        "_max"@
    }
}

/// The name of signal column `t` of the export schema: ten columns per
/// (position, variable) pair, the five summary suffixes twice over.
pub open spec fn spec_signal_col_name(t: int) -> Seq<char> {
    let idx = t / 10;
    let k = t % 10;
    spec_name_string(spec_variable_at(idx % 9), spec_position_at(idx / 9)) + spec_suffix(k % 5)
}

/// The full export schema: the six fixed columns, then the ten summary
/// columns of every signal in enumeration order.
pub open spec fn spec_export_schema() -> Seq<Seq<char>> {
    seq!["filename"@, "selection"@, "gait mean"@, "ls mean"@, "rs mean"@, "db mean"@] + Seq::new(
        1440,
        |t: int| spec_signal_col_name(t),
    )
}

/// The cell of rank `k` of an optional five-number summary.
pub open spec fn spec_rank_cell(q: Option<Quantile>, k: int) -> Cell {
    match q {
        None => Cell::Missing,
        Some(q) => if k == 0 {
            Cell::Ticks(q.min)
        } else if k == 1 {
            Cell::Ticks(q.q1)
        } else if k == 2 {
            Cell::Median { lo: q.med_lo, hi: q.med_hi }
        } else if k == 3 {
            Cell::Ticks(q.q3)
        } else {
            Cell::Ticks(q.max)
        },
    }
}

/// The signal cell at offset `t` of the schema, from the per-signal
/// summaries: minima ranks first, then maxima ranks.
pub open spec fn spec_signal_cell(summaries: Seq<(Option<Quantile>, Option<Quantile>)>, t: int) -> Cell {
    let idx = t / 10;
    let k = t % 10;
    if k < 5 {
        spec_rank_cell(summaries[idx].0, k)
    } else {
        spec_rank_cell(summaries[idx].1, k - 5)
    }
}

/// The suffix string of one rank.
fn suffix_str(k: usize) -> (r: &'static str)
    requires
        k < 5,
    ensures
        r@ == spec_suffix(k as int),
{
    match k {
        0 => "_min",
        1 => "_Q1",
        2 => "_median",
        3 => "_Q3",
        _ => "_max",
    }
}

/// The cell of one rank of an optional summary.
fn rank_cell(q: &Option<Quantile>, k: usize) -> (r: Cell)
    requires
        k < 5,
    ensures
        r == spec_rank_cell(*q, k as int),
{
    match q {
        None => Cell::Missing,
        Some(q) => {
            if k == 0 {
                Cell::Ticks(q.min)
            } else if k == 1 {
                Cell::Ticks(q.q1)
            } else if k == 2 {
                Cell::Median { lo: q.med_lo, hi: q.med_hi }
            } else if k == 3 {
                Cell::Ticks(q.q3)
            } else {
                Cell::Ticks(q.max)
            }
        },
    }
}

/// Assembles one export row: the file name, the selection string, the
/// four mean gaps, then the ten summary cells of each of the 144
/// signals in enumeration order.
pub fn build_row(
    filename: String,
    selection: String,
    gait: GapStats,
    ls: GapStats,
    rs: GapStats,
    db: GapStats,
    summaries: &Vec<(Option<Quantile>, Option<Quantile>)>,
) -> (r: ExportRow)
    requires
        summaries@.len() == 144,
    ensures
        r.wf(),
        spec_views(r.names@) == spec_export_schema(),
        r.cells@.len() == 1446,
        r.cells@[0] matches Cell::Text(s) && s@ == filename@,
        r.cells@[1] matches Cell::Text(s) && s@ == selection@,
        r.cells@[2] == (Cell::MeanGap { sum: gait.sum, count: gait.count }),
        r.cells@[3] == (Cell::MeanGap { sum: ls.sum, count: ls.count }),
        r.cells@[4] == (Cell::MeanGap { sum: rs.sum, count: rs.count }),
        r.cells@[5] == (Cell::MeanGap { sum: db.sum, count: db.count }),
        forall|t: int| 0 <= t < 1440 ==> #[trigger] r.cells@[6 + t] == spec_signal_cell(
            summaries@,
            t,
        ),
{
    let mut names: Vec<String> = Vec::new();
    let mut cells: Vec<Cell> = Vec::new();
    names.push(String::from_str("filename"));
    names.push(String::from_str("selection"));
    names.push(String::from_str("gait mean"));
    names.push(String::from_str("ls mean"));
    names.push(String::from_str("rs mean"));
    names.push(String::from_str("db mean"));
    cells.push(Cell::Text(filename));
    cells.push(Cell::Text(selection));
    cells.push(Cell::MeanGap { sum: gait.sum, count: gait.count });
    cells.push(Cell::MeanGap { sum: ls.sum, count: ls.count });
    cells.push(Cell::MeanGap { sum: rs.sum, count: rs.count });
    cells.push(Cell::MeanGap { sum: db.sum, count: db.count });
    let positions = crate::config::Position::iterator();
    let variables = crate::config::Variable::iterator();
    let mut idx: usize = 0;
    while idx < 144
        invariant
            idx <= 144,
            summaries@.len() == 144,
            positions@ == crate::config::spec_positions(),
            variables@ == crate::config::spec_variables(),
            names@.len() == 6 + idx * 10,
            cells@.len() == 6 + idx * 10,
            forall|m: int|
                0 <= m < names@.len() ==> (#[trigger] names@[m])@ == spec_export_schema()[m],
            cells@[0] matches Cell::Text(s) && s@ == filename@,
            cells@[1] matches Cell::Text(s) && s@ == selection@,
            cells@[2] == (Cell::MeanGap { sum: gait.sum, count: gait.count }),
            cells@[3] == (Cell::MeanGap { sum: ls.sum, count: ls.count }),
            cells@[4] == (Cell::MeanGap { sum: rs.sum, count: rs.count }),
            cells@[5] == (Cell::MeanGap { sum: db.sum, count: db.count }),
            forall|t: int|
                0 <= t < idx * 10 ==> #[trigger] cells@[6 + t] == spec_signal_cell(summaries@, t),
        decreases 144 - idx,
    {
        let pi = idx / 9;
        let vi = idx % 9;
        let base = Variable::to_name_string(&variables[vi], &positions[pi]);
        proof {
            assert(crate::config::spec_positions()[pi as int] == spec_position_at(pi as int));
            assert(crate::config::spec_variables()[vi as int] == spec_variable_at(vi as int));
        }
        let mut k: usize = 0;
        while k < 10
            invariant
                idx < 144,
                k <= 10,
                summaries@.len() == 144,
                base@ == spec_name_string(spec_variable_at(idx as int % 9), spec_position_at(idx as int / 9)),
                names@.len() == 6 + idx * 10 + k,
                cells@.len() == 6 + idx * 10 + k,
                forall|m: int|
                    0 <= m < names@.len() ==> (#[trigger] names@[m])@ == spec_export_schema()[m],
                cells@[0] matches Cell::Text(s) && s@ == filename@,
                cells@[1] matches Cell::Text(s) && s@ == selection@,
                cells@[2] == (Cell::MeanGap { sum: gait.sum, count: gait.count }),
                cells@[3] == (Cell::MeanGap { sum: ls.sum, count: ls.count }),
                cells@[4] == (Cell::MeanGap { sum: rs.sum, count: rs.count }),
                cells@[5] == (Cell::MeanGap { sum: db.sum, count: db.count }),
                forall|t: int|
                    0 <= t < idx * 10 + k ==> #[trigger] cells@[6 + t] == spec_signal_cell(
                        summaries@,
                        t,
                    ),
            decreases 10 - k,
        {
            let suffix = if k < 5 {
                suffix_str(k)
            } else {
                suffix_str(k - 5)
            };
            let mut name = base.clone();
            name.append(suffix);
            let cell = if k < 5 {
                rank_cell(&summaries[idx].0, k)
            } else {
                rank_cell(&summaries[idx].1, k - 5)
            };
            proof {
                let t = idx * 10 + k;
                assert(t / 10 == idx && t % 10 == k) by (nonlinear_arith)
                    requires
                        0 <= k < 10,
                        0 <= idx,
                        t == idx * 10 + k,
                ;
                assert(spec_export_schema()[6 + t] == spec_signal_col_name(t as int));
                assert(name@ == spec_signal_col_name(t as int));
                assert(cell == spec_signal_cell(summaries@, t as int));
            }
            names.push(name);
            cells.push(cell);
            k = k + 1;
        }
        proof {
            assert((idx + 1) * 10 == idx * 10 + 10) by (nonlinear_arith);
        }
        idx = idx + 1;
    }
    proof {
        assert(spec_views(names@) =~= spec_export_schema());
    }
    ExportRow { names, cells }
}

/// The time windows of the chosen cycle-index ranges: each `(s, e)`
/// pair of indices spans from the start of cycle `s` to the start of
/// cycle `e`. An index outside the cycle list, or a backwards pair,
/// yields nothing.
pub fn export_windows(gait: &Vec<(i64, i64)>, ranges: &Vec<(u32, u32)>) -> (r: Option<
    Vec<(i64, i64)>,
>)
    ensures
        match r {
            Some(w) => {
                &&& w@.len() == ranges@.len()
                &&& forall|i: int|
                    0 <= i < ranges@.len() ==> (#[trigger] ranges@[i]).0 <= ranges@[i].1
                        && ranges@[i].1 < gait@.len()
                &&& forall|i: int|
                    0 <= i < ranges@.len() ==> #[trigger] w@[i] == (
                        gait@[ranges@[i].0 as int].0,
                        gait@[ranges@[i].1 as int].0,
                    )
            },
            None => exists|i: int|
                0 <= i < ranges@.len() && ((#[trigger] ranges@[i]).0 > ranges@[i].1 || ranges@[i].1
                    >= gait@.len()),
        },
{
    let mut out: Vec<(i64, i64)> = Vec::new();
    let mut i: usize = 0;
    while i < ranges.len()
        invariant
            i <= ranges@.len(),
            out@.len() == i,
            forall|k: int|
                0 <= k < i ==> (#[trigger] ranges@[k]).0 <= ranges@[k].1 && ranges@[k].1
                    < gait@.len(),
            forall|k: int|
                0 <= k < i ==> #[trigger] out@[k] == (
                    gait@[ranges@[k].0 as int].0,
                    gait@[ranges@[k].1 as int].0,
                ),
        decreases ranges@.len() - i,
    {
        let (s, e) = ranges[i];
        if s > e || e as usize >= gait.len() {
            return None;
        }
        out.push((gait[s as usize].0, gait[e as usize].0));
        i = i + 1;
    }
    Some(out)
}

/// How often a name occurs in a list.
pub open spec fn spec_count(names: Seq<Seq<char>>, n: Seq<char>) -> int
    decreases names.len(),
{
    if names.len() == 0 {
        0
    } else {
        (if names[0] == n {
            1int
        } else {
            0int
        }) + spec_count(names.skip(1), n)
    }
}

/// Index of the occurrence of `n` with exactly `r` earlier occurrences,
/// if the list holds that many.
pub open spec fn spec_occ_index(names: Seq<Seq<char>>, n: Seq<char>, r: int) -> Option<int>
    decreases names.len(),
{
    if names.len() == 0 {
        None
    } else if names[0] == n {
        if r == 0 {
            Some(0)
        } else {
            match spec_occ_index(names.skip(1), n, r - 1) {
                None => None,
                Some(j) => Some(j + 1),
            }
        }
    } else {
        match spec_occ_index(names.skip(1), n, r) {
            None => None,
            Some(j) => Some(j + 1),
        }
    }
}

pub proof fn lemma_count_nonneg(names: Seq<Seq<char>>, n: Seq<char>)
    ensures
        spec_count(names, n) >= 0,
    decreases names.len(),
{
    if names.len() > 0 {
        lemma_count_nonneg(names.skip(1), n);
    }
}

/// Appending one name raises its count by one and no other.
pub proof fn lemma_count_snoc(names: Seq<Seq<char>>, x: Seq<char>, n: Seq<char>)
    ensures
        spec_count(names.push(x), n) == spec_count(names, n) + (if x == n {
            1int
        } else {
            0int
        }),
    decreases names.len(),
{
    if names.len() == 0 {
        assert(names.push(x)[0] == x);
        assert(names.push(x).skip(1) =~= Seq::<Seq<char>>::empty());
        assert(spec_count(names.push(x), n) == (if x == n {
            1int
        } else {
            0int
        }) + spec_count(names.push(x).skip(1), n));
    } else {
        assert(names.push(x)[0] == names[0]);
        assert(names.push(x).skip(1) =~= names.skip(1).push(x));
        lemma_count_snoc(names.skip(1), x, n);
        assert(spec_count(names.push(x), n) == (if names[0] == n {
            1int
        } else {
            0int
        }) + spec_count(names.skip(1).push(x), n));
    }
}

/// What a found occurrence index means, and when none exists.
pub proof fn lemma_occ_index_char(names: Seq<Seq<char>>, n: Seq<char>, r: int)
    ensures
        match spec_occ_index(names, n, r) {
            Some(j) => 0 <= j < names.len() && names[j] == n && spec_count(names.take(j), n) == r
                && r >= 0,
            None => r < 0 || spec_count(names, n) <= r,
        },
    decreases names.len(),
{
    if names.len() > 0 {
        if names[0] == n && r == 0 {
            assert(names.take(0) =~= Seq::<Seq<char>>::empty());
        } else {
            let r2 = if names[0] == n {
                r - 1
            } else {
                r
            };
            lemma_occ_index_char(names.skip(1), n, r2);
            match spec_occ_index(names.skip(1), n, r2) {
                Some(j2) => {
                    assert(names[j2 + 1] == names.skip(1)[j2]);
                    assert(names.take(j2 + 1).skip(1) =~= names.skip(1).take(j2));
                    assert(spec_count(names.take(j2 + 1), n) == (if names[0] == n {
                        1int
                    } else {
                        0int
                    }) + spec_count(names.skip(1).take(j2), n));
                },
                None => {},
            }
        }
    }
}

/// The occurrence of `n` with `r` earlier occurrences, where it exists,
/// is found exactly there.
pub proof fn lemma_occ_index_of(names: Seq<Seq<char>>, n: Seq<char>, r: int, j: int)
    requires
        0 <= j < names.len(),
        names[j] == n,
        spec_count(names.take(j), n) == r,
    ensures
        spec_occ_index(names, n, r) == Some(j),
    decreases names.len(),
{
    lemma_count_nonneg(names.take(j), n);
    if j == 0 {
        assert(names.take(0) =~= Seq::<Seq<char>>::empty());
    } else {
        assert(names.take(j).skip(1) =~= names.skip(1).take(j - 1));
        assert(spec_count(names.take(j), n) == (if names[0] == n {
            1int
        } else {
            0int
        }) + spec_count(names.skip(1).take(j - 1), n));
        lemma_count_nonneg(names.skip(1).take(j - 1), n);
        let r2 = if names[0] == n {
            r - 1
        } else {
            r
        };
        assert(names.skip(1)[j - 1] == names[j]);
        lemma_occ_index_of(names.skip(1), n, r2, j - 1);
    }
}

/// The schema after folding one row's names in, from position `k` on:
/// a name is appended wherever the schema so far holds fewer
/// occurrences of it than the row needs up to that position.
pub open spec fn spec_extend_schema(
    schema: Seq<Seq<char>>,
    names: Seq<Seq<char>>,
    k: int,
) -> Seq<Seq<char>>
    decreases names.len() - k,
{
    if k < 0 || k >= names.len() {
        schema
    } else {
        let need = spec_count(names.take(k + 1), names[k]);
        let have = spec_count(schema, names[k]);
        let schema2 = if have < need {
            schema.push(names[k])
        } else {
            schema
        };
        spec_extend_schema(schema2, names, k + 1)
    }
}

/// The union schema of the rows from `i` on, folded onto `schema`.
pub open spec fn spec_union_schema_from(
    schema: Seq<Seq<char>>,
    rows: Seq<ExportRow>,
    i: int,
) -> Seq<Seq<char>>
    decreases rows.len() - i,
{
    if i < 0 || i >= rows.len() {
        schema
    } else {
        spec_union_schema_from(spec_extend_schema(schema, spec_views(rows[i].names@), 0), rows, i + 1)
    }
}

/// The union-by-name schema of a row list: the first row's columns,
/// then every later row's surplus occurrences in order of appearance.
pub open spec fn spec_union_schema(rows: Seq<ExportRow>) -> Seq<Seq<char>> {
    spec_union_schema_from(Seq::empty(), rows, 0)
}

/// Whether two cells carry the same value, text compared by content.
pub open spec fn spec_cell_like(a: Cell, b: Cell) -> bool {
    match (a, b) {
        (Cell::Text(x), Cell::Text(y)) => x@ == y@,
        (Cell::Ticks(x), Cell::Ticks(y)) => x == y,
        (Cell::Median { lo: al, hi: ah }, Cell::Median { lo: bl, hi: bh }) => al == bl && ah == bh,
        (Cell::MeanGap { sum: asum, count: ac }, Cell::MeanGap { sum: bsum, count: bc }) => asum
            == bsum && ac == bc,
        (Cell::Missing, Cell::Missing) => true,
        _ => false,
    }
}

/// The input cell a schema slot draws from one row: the row's
/// occurrence of the slot's name with as many earlier occurrences as
/// the slot has in the schema — or nothing, when the row has no such
/// column.
pub open spec fn spec_slot_source(row: ExportRow, schema: Seq<Seq<char>>, s: int) -> Option<Cell> {
    match spec_occ_index(
        spec_views(row.names@),
        schema[s],
        spec_count(schema.take(s), schema[s]),
    ) {
        Some(j) => Some(row.cells@[j]),
        None => None,
    }
}

/// Counts the occurrences of `n` among the first `upto` names.
fn count_prefix(names: &Vec<String>, upto: usize, n: &str) -> (r: usize)
    requires
        upto <= names@.len(),
    ensures
        r == spec_count(spec_views(names@).take(upto as int), n@),
{
    let views = Ghost(spec_views(names@));
    let mut c: usize = 0;
    let mut k: usize = 0;
    proof {
        assert(views@.take(0) =~= Seq::<Seq<char>>::empty());
    }
    while k < upto
        invariant
            k <= upto <= names@.len(),
            views@ == spec_views(names@),
            c <= k,
            c == spec_count(views@.take(k as int), n@),
        decreases upto - k,
    {
        proof {
            assert(views@.take(k + 1) =~= views@.take(k as int).push(views@[k as int]));
            lemma_count_snoc(views@.take(k as int), views@[k as int], n@);
            assert(views@[k as int] == names@[k as int]@);
        }
        if str_eq(names[k].as_str(), n) {
            c = c + 1;
        }
        k = k + 1;
    }
    c
}

/// Finds the occurrence of `n` with exactly `r` earlier occurrences.
fn occ_find(names: &Vec<String>, n: &str, r: usize) -> (ret: Option<usize>)
    ensures
        match ret {
            Some(j) => j < names@.len() && spec_occ_index(spec_views(names@), n@, r as int)
                == Some(j as int),
            None => spec_occ_index(spec_views(names@), n@, r as int) is None,
        },
{
    let views = Ghost(spec_views(names@));
    let mut seen: usize = 0;
    let mut k: usize = 0;
    proof {
        assert(views@.take(0) =~= Seq::<Seq<char>>::empty());
    }
    while k < names.len()
        invariant
            k <= names@.len(),
            views@ == spec_views(names@),
            seen <= k,
            seen == spec_count(views@.take(k as int), n@),
            forall|m: int|
                0 <= m < k ==> !(views@[m] == n@ && spec_count(views@.take(m), n@) == r),
        decreases names@.len() - k,
    {
        proof {
            assert(views@.take(k + 1) =~= views@.take(k as int).push(views@[k as int]));
            lemma_count_snoc(views@.take(k as int), views@[k as int], n@);
            assert(views@[k as int] == names@[k as int]@);
        }
        if str_eq(names[k].as_str(), n) {
            if seen == r {
                proof {
                    lemma_occ_index_of(views@, n@, r as int, k as int);
                }
                return Some(k);
            }
            seen = seen + 1;
        }
        k = k + 1;
    }
    proof {
        lemma_occ_index_char(views@, n@, r as int);
        match spec_occ_index(views@, n@, r as int) {
            Some(j) => {
                assert(!(views@[j] == n@ && spec_count(views@.take(j), n@) == r as int));
                assert(false);
            },
            None => {},
        }
    }
    None
}

/// Clones one cell, content for content.
fn clone_cell(c: &Cell) -> (r: Cell)
    ensures
        spec_cell_like(r, *c),
{
    match c {
        Cell::Text(s) => Cell::Text(s.clone()),
        Cell::Ticks(t) => Cell::Ticks(*t),
        Cell::Median { lo, hi } => Cell::Median { lo: *lo, hi: *hi },
        Cell::MeanGap { sum, count } => Cell::MeanGap { sum: *sum, count: *count },
        Cell::Missing => Cell::Missing,
    }
}

/// Folds one row's names into the schema, per [`spec_extend_schema`].
fn extend_schema(schema: &mut Vec<String>, names: &Vec<String>)
    ensures
        spec_views(final (schema)@) == spec_extend_schema(
            spec_views(old(schema)@),
            spec_views(names@),
            0,
        ),
{
    let mut k: usize = 0;
    while k < names.len()
        invariant
            k <= names@.len(),
            spec_extend_schema(spec_views(old(schema)@), spec_views(names@), 0)
                == spec_extend_schema(spec_views(schema@), spec_views(names@), k as int),
        decreases names@.len() - k,
    {
        let need = count_prefix(names, k + 1, names[k].as_str());
        let have = count_prefix(schema, schema.len(), names[k].as_str());
        proof {
            assert(spec_views(schema@).take(spec_views(schema@).len() as int) =~= spec_views(
                schema@,
            ));
            assert(spec_views(names@)[k as int] == names@[k as int]@);
        }
        if have < need {
            let piece = names[k].clone();
            proof {
                assert(spec_views(schema@.push(piece)) =~= spec_views(schema@).push(
                    names@[k as int]@,
                ));
            }
            schema.push(piece);
        }
        k = k + 1;
    }
}

/// Concatenates export rows by the outer union of their columns: the
/// schema is the first row's columns followed by every later row's
/// surplus occurrences, and each output row carries its input's cell
/// for every schema slot it has, with the rest missing.
pub fn concat_rows(rows: Vec<ExportRow>) -> (r: (Vec<String>, Vec<Vec<Cell>>))
    requires
        forall|i: int| 0 <= i < rows@.len() ==> (#[trigger] rows@[i]).wf(),
    ensures
        spec_views(r.0@) == spec_union_schema(rows@),
        r.1@.len() == rows@.len(),
        forall|i: int| 0 <= i < rows@.len() ==> (#[trigger] r.1@[i])@.len() == r.0@.len(),
        forall|i: int, s: int|
            0 <= i < rows@.len() && 0 <= s < r.0@.len() ==> (match spec_slot_source(
                rows@[i],
                spec_views(r.0@),
                s,
            ) {
                Some(c) => spec_cell_like(#[trigger] r.1@[i]@[s], c),
                None => r.1@[i]@[s] is Missing,
            }),
{
    let mut schema: Vec<String> = Vec::new();
    let mut i: usize = 0;
    proof {
        assert(spec_views(schema@) =~= Seq::<Seq<char>>::empty());
    }
    while i < rows.len()
        invariant
            i <= rows@.len(),
            spec_union_schema(rows@) == spec_union_schema_from(
                spec_views(schema@),
                rows@,
                i as int,
            ),
        decreases rows@.len() - i,
    {
        extend_schema(&mut schema, &rows[i].names);
        i = i + 1;
    }
    let schema_views = Ghost(spec_views(schema@));
    let mut matrix: Vec<Vec<Cell>> = Vec::new();
    let mut i: usize = 0;
    while i < rows.len()
        invariant
            i <= rows@.len(),
            forall|m: int| 0 <= m < rows@.len() ==> (#[trigger] rows@[m]).wf(),
            schema_views@ == spec_views(schema@),
            matrix@.len() == i,
            forall|m: int| 0 <= m < i ==> (#[trigger] matrix@[m])@.len() == schema@.len(),
            forall|m: int, s: int|
                0 <= m < i && 0 <= s < schema@.len() ==> (match spec_slot_source(
                    rows@[m],
                    schema_views@,
                    s,
                ) {
                    Some(c) => spec_cell_like(#[trigger] matrix@[m]@[s], c),
                    None => matrix@[m]@[s] is Missing,
                }),
        decreases rows@.len() - i,
    {
        let mut out_row: Vec<Cell> = Vec::new();
        let mut s: usize = 0;
        while s < schema.len()
            invariant
                i < rows@.len(),
                forall|m: int| 0 <= m < rows@.len() ==> (#[trigger] rows@[m]).wf(),
                s <= schema@.len(),
                schema_views@ == spec_views(schema@),
                out_row@.len() == s,
                forall|q: int|
                    0 <= q < s ==> (match spec_slot_source(rows@[i as int], schema_views@, q) {
                        Some(c) => spec_cell_like(#[trigger] out_row@[q], c),
                        None => out_row@[q] is Missing,
                    }),
            decreases schema@.len() - s,
        {
            let rank = count_prefix(&schema, s, schema[s].as_str());
            proof {
                assert(schema_views@[s as int] == schema@[s as int]@);
            }
            let cell = match occ_find(&rows[i].names, schema[s].as_str(), rank) {
                Some(j) => clone_cell(&rows[i].cells[j]),
                None => Cell::Missing,
            };
            out_row.push(cell);
            s = s + 1;
        }
        matrix.push(out_row);
        i = i + 1;
    }
    (schema, matrix)
}

/// No input cell is lost: every column occurrence of every row is
/// carried to exactly the schema slot with its name and rank — the
/// outer union keeps all the data, and missing cells stand only for
/// columns a file never had.
pub proof fn lemma_union_no_cell_lost(rows: Seq<ExportRow>, i: int, j: int)
    requires
        0 <= i < rows.len(),
        0 <= j < spec_views(rows[i].names@).len(),
    ensures
        exists|s: int|
            0 <= s < spec_union_schema(rows).len() && spec_slot_source(
                rows[i],
                spec_union_schema(rows),
                s,
            ) == Some(rows[i].cells@[j]),
{
    let names = spec_views(rows[i].names@);
    let n = names[j];
    let r = spec_count(names.take(j), n);
    lemma_count_nonneg(names.take(j), n);
    lemma_occ_index_of(names, n, r, j);
    lemma_count_take_le(names, n, j);
    lemma_union_schema_covers(rows, i, n);
    let schema = spec_union_schema(rows);
    lemma_occ_index_char(schema, n, r);
    assert(spec_count(names.take(j).push(n), n) == r + 1) by {
        lemma_count_snoc(names.take(j), n, n);
    }
    assert(spec_count(names, n) >= r + 1) by {
        assert(names.take(j + 1) =~= names.take(j).push(names[j]));
        lemma_count_take_le(names, n, j + 1);
    }
    match spec_occ_index(schema, n, r) {
        None => {
            assert(false);
        },
        Some(s) => {
            assert(schema[s] == n && spec_count(schema.take(s), n) == r);
            assert(spec_slot_source(rows[i], schema, s) == Some(rows[i].cells@[j]));
        },
    }
}

/// A prefix never holds more occurrences than the whole list.
pub proof fn lemma_count_take_le(names: Seq<Seq<char>>, n: Seq<char>, k: int)
    requires
        0 <= k <= names.len(),
    ensures
        spec_count(names.take(k), n) <= spec_count(names, n),
    decreases names.len() - k,
{
    if k < names.len() {
        assert(names.take(k + 1) =~= names.take(k).push(names[k]));
        lemma_count_snoc(names.take(k), names[k], n);
        lemma_count_take_le(names, n, k + 1);
        assert(names.take(names.len() as int) =~= names);
    } else {
        assert(names.take(k) =~= names);
    }
}

/// The union schema holds at least as many occurrences of every name
/// as any single row.
pub proof fn lemma_union_schema_covers(rows: Seq<ExportRow>, i: int, n: Seq<char>)
    requires
        0 <= i < rows.len(),
    ensures
        spec_count(spec_union_schema(rows), n) >= spec_count(spec_views(rows[i].names@), n),
{
    lemma_union_covers_from(Seq::empty(), rows, 0, i, n);
}

/// Folding rows into a schema only grows each name's count, and after
/// folding row `i` its counts are covered for good.
proof fn lemma_union_covers_from(
    schema: Seq<Seq<char>>,
    rows: Seq<ExportRow>,
    k: int,
    i: int,
    n: Seq<char>,
)
    requires
        0 <= k <= i < rows.len(),
    ensures
        spec_count(spec_union_schema_from(schema, rows, k), n) >= spec_count(
            spec_views(rows[i].names@),
            n,
        ),
    decreases rows.len() - k,
{
    let schema2 = spec_extend_schema(schema, spec_views(rows[k].names@), 0);
    if k == i {
        lemma_count_nonneg(schema, n);
        assert(spec_views(rows[i].names@).take(0) =~= Seq::<Seq<char>>::empty());
        lemma_extend_covers(schema, spec_views(rows[i].names@), 0, n);
        lemma_union_count_monotone(schema2, rows, k + 1, n);
        assert(spec_views(rows[i].names@).take(spec_views(rows[i].names@).len() as int)
            =~= spec_views(rows[i].names@));
    } else {
        lemma_union_covers_from(schema2, rows, k + 1, i, n);
    }
}

/// Extending a schema never lowers a count, and raises the extended
/// name's count to what the row's prefix needs.
proof fn lemma_extend_covers(schema: Seq<Seq<char>>, names: Seq<Seq<char>>, k: int, n: Seq<char>)
    requires
        0 <= k <= names.len(),
        spec_count(schema, n) >= spec_count(names.take(k), n),
    ensures
        spec_count(spec_extend_schema(schema, names, k), n) >= spec_count(
            names.take(names.len() as int),
            n,
        ),
    decreases names.len() - k,
{
    if k < names.len() {
        let need = spec_count(names.take(k + 1), names[k]);
        let have = spec_count(schema, names[k]);
        let schema2 = if have < need {
            schema.push(names[k])
        } else {
            schema
        };
        assert(names.take(k + 1) =~= names.take(k).push(names[k]));
        lemma_count_snoc(names.take(k), names[k], n);
        lemma_count_snoc(names.take(k), names[k], names[k]);
        if have < need {
            lemma_count_snoc(schema, names[k], n);
        }
        assert(spec_count(schema2, n) >= spec_count(names.take(k + 1), n));
        lemma_extend_covers(schema2, names, k + 1, n);
    } else {
        assert(names.take(k) =~= names.take(names.len() as int));
    }
}

/// Folding further rows into a schema never lowers a count.
proof fn lemma_union_count_monotone(schema: Seq<Seq<char>>, rows: Seq<ExportRow>, k: int, n: Seq<char>)
    ensures
        spec_count(spec_union_schema_from(schema, rows, k), n) >= spec_count(schema, n),
    decreases rows.len() - k,
{
    if 0 <= k < rows.len() {
        let schema2 = spec_extend_schema(schema, spec_views(rows[k].names@), 0);
        lemma_extend_count_monotone(schema, spec_views(rows[k].names@), 0, n);
        lemma_union_count_monotone(schema2, rows, k + 1, n);
    }
}

/// Extending a schema never lowers a count.
proof fn lemma_extend_count_monotone(
    schema: Seq<Seq<char>>,
    names: Seq<Seq<char>>,
    k: int,
    n: Seq<char>,
)
    ensures
        spec_count(spec_extend_schema(schema, names, k), n) >= spec_count(schema, n),
    decreases names.len() - k,
{
    if 0 <= k < names.len() {
        let need = spec_count(names.take(k + 1), names[k]);
        let have = spec_count(schema, names[k]);
        let schema2 = if have < need {
            schema.push(names[k])
        } else {
            schema
        };
        if have < need {
            lemma_count_snoc(schema, names[k], n);
        }
        lemma_extend_count_monotone(schema2, names, k + 1, n);
    }
}

} // verus!
