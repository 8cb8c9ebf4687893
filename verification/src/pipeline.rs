//! The per-recording analysis pipeline: from a loaded table and the
//! user's valid-time selections to gait statistics.
//!
//! The table must carry a strictly increasing `time` column and the two
//! integer foot-contact columns; every signal column named by the two
//! enumerations must be present. The pipeline decodes the contacts,
//! classifies support, detects edges, extracts cycles, filters them by
//! the selections and summarises per-cycle extrema and support
//! durations.

use vstd::prelude::*;

use crate::aggregate::{
    gap_quantile, get_min_max_quantile, spec_cycle_maxs, spec_cycle_mins, spec_gaps,
    spec_valid_intervals,
};
use crate::config::{spec_name_string, Position, Variable};
use crate::edges::{
    check_strictly_increasing, db_intervals, spec_db_pairs, spec_edge_rows, spec_end_rows,
    spec_start_rows, spec_strictly_increasing, spec_support_pairs, support_intervals, times_at,
};
use crate::errors::AnalysisError;
use crate::gait::{gait_with_sentinels, spec_adjacent_pairs, spec_gait_boundaries};
use crate::header::spec_index_of;
use crate::quantile::{spec_quantile5, Quantile};
use crate::selection::{spec_valid_cycles, valid_cycles};
use crate::support::{decode_contact, spec_decoded};
use crate::table::{spec_col_names, ColData, Table};
use crate::ticks::valid_tick;

verus! {

/// The real-valued column of the given name, if present with that kind.
pub open spec fn spec_reals_col(cols: Seq<crate::table::Column>, name: Seq<char>) -> Option<
    Seq<i64>,
> {
    match spec_index_of(spec_col_names(cols), name) {
        Some(i) => match cols[i].data {
            ColData::Reals(v) => Some(v@),
            _ => None,
        },
        None => None,
    }
}

/// The integer column of the given name, if present with that kind.
pub open spec fn spec_ints_col(cols: Seq<crate::table::Column>, name: Seq<char>) -> Option<
    Seq<i64>,
> {
    match spec_index_of(spec_col_names(cols), name) {
        Some(i) => match cols[i].data {
            ColData::Ints(v) => Some(v@),
            _ => None,
        },
        None => None,
    }
}

/// The boolean column of the given name, if present with that kind.
pub open spec fn spec_bools_col(cols: Seq<crate::table::Column>, name: Seq<char>) -> Option<
    Seq<bool>,
> {
    match spec_index_of(spec_col_names(cols), name) {
        Some(i) => match cols[i].data {
            ColData::Bools(v) => Some(v@),
            _ => None,
        },
        None => None,
    }
}

/// Whether every element is a tick value the pipeline may hold.
pub open spec fn spec_all_valid_ticks(s: Seq<i64>) -> bool {
    forall|i: int| 0 <= i < s.len() ==> valid_tick(#[trigger] s[i] as int)
}

/// The pointwise conjunction of two equally long channels.
pub open spec fn spec_and_channel(a: Seq<bool>, b: Seq<bool>) -> Seq<bool> {
    Seq::new(a.len(), |i: int| a[i] && b[i])
}

/// Checks that every element is a tick value the pipeline may hold.
pub fn check_all_valid_ticks(v: &Vec<i64>) -> (r: bool)
    ensures
        r == spec_all_valid_ticks(v@),
{
    let mut i: usize = 0;
    while i < v.len()
        invariant
            i <= v@.len(),
            forall|k: int| 0 <= k < i ==> valid_tick(#[trigger] v@[k] as int),
        decreases v@.len() - i,
    {
        if v[i] < -crate::ticks::TICK_LIMIT || v[i] > crate::ticks::TICK_LIMIT {
            return false;
        }
        i = i + 1;
    }
    true
}

/// The single-support pairing of a valid-tick time column is made of
/// valid intervals.
pub proof fn lemma_support_pairs_valid(t: Seq<i64>, c: Seq<bool>)
    requires
        spec_all_valid_ticks(t),
        t.len() == c.len(),
    ensures
        spec_valid_intervals(spec_support_pairs(t, c)),
{
    let m = times_at(t, spec_edge_rows(c));
    assert forall|j: int| 0 <= j < m.len() implies valid_tick(#[trigger] m[j] as int) by {
        crate::edges::lemma_rows_upto_index(c, c.len() as int, crate::edges::edge_pred(), j);
        assert(m[j] == t[spec_edge_rows(c)[j]]);
    }
    assert forall|k: int| 0 <= k < spec_support_pairs(t, c).len() implies valid_tick(
        (#[trigger] spec_support_pairs(t, c)[k]).0 as int,
    ) && valid_tick(spec_support_pairs(t, c)[k].1 as int) by {
        assert(spec_support_pairs(t, c)[k] == (m[2 * k + 1], m[2 * k + 2]));
    }
}

/// Gait boundaries of a valid-tick time column stay valid, and so do
/// the cycles they chain into.
pub proof fn lemma_gait_cycles_valid(t: Seq<i64>, c: Seq<bool>)
    requires
        spec_all_valid_ticks(t),
        t.len() == c.len(),
    ensures
        spec_valid_intervals(spec_adjacent_pairs(spec_gait_boundaries(t, c))),
{
    let st = times_at(t, spec_start_rows(c));
    assert forall|j: int| 0 <= j < st.len() implies valid_tick(#[trigger] st[j] as int) by {
        crate::edges::lemma_rows_upto_index(c, c.len() as int, crate::edges::start_pred(), j);
        assert(st[j] == t[spec_start_rows(c)[j]]);
    }
    let b = spec_gait_boundaries(t, c);
    assert forall|j: int| 0 <= j < b.len() implies valid_tick(#[trigger] b[j] as int) by {
        assert(b[j] == st[2 * j]);
    }
    assert forall|k: int| 0 <= k < spec_adjacent_pairs(b).len() implies valid_tick(
        (#[trigger] spec_adjacent_pairs(b)[k]).0 as int,
    ) && valid_tick(spec_adjacent_pairs(b)[k].1 as int) by {
        assert(spec_adjacent_pairs(b)[k] == (b[k], b[k + 1]));
    }
}

/// A filtered cycle list keeps only intervals of the original, so
/// validity carries over.
pub proof fn lemma_valid_cycles_valid(cycles: Seq<(i64, i64)>, sels: Seq<(i64, i64)>)
    requires
        spec_valid_intervals(cycles),
    ensures
        spec_valid_intervals(spec_valid_cycles(cycles, sels)),
    decreases cycles.len(),
{
    reveal(Seq::filter);
    if cycles.len() > 0 {
        assert(spec_valid_intervals(cycles.drop_last())) by {
            assert forall|k: int| 0 <= k < cycles.drop_last().len() implies valid_tick(
                (#[trigger] cycles.drop_last()[k]).0 as int,
            ) && valid_tick(cycles.drop_last()[k].1 as int) by {
                assert(cycles.drop_last()[k] == cycles[k]);
            }
        }
        lemma_valid_cycles_valid(cycles.drop_last(), sels);
        let pred = |c: (i64, i64)| crate::selection::spec_in_selection(c, sels);
        let sub = cycles.drop_last().filter(pred);
        assert(spec_valid_cycles(cycles.drop_last(), sels) == sub);
        if pred(cycles.last()) {
            assert(spec_valid_cycles(cycles, sels) == sub.push(cycles.last()));
            assert forall|k: int| 0 <= k < sub.push(cycles.last()).len() implies valid_tick(
                (#[trigger] sub.push(cycles.last())[k]).0 as int,
            ) && valid_tick(sub.push(cycles.last())[k].1 as int) by {
                if k < sub.len() {
                    assert(sub.push(cycles.last())[k] == sub[k]);
                } else {
                    assert(sub.push(cycles.last())[k] == cycles.last());
                    assert(cycles.last() == cycles[cycles.len() - 1]);
                }
            }
        } else {
            assert(spec_valid_cycles(cycles, sels) == sub);
        }
    }
}

/// Reads the strictly increasing, tick-valid `time` column of a table.
fn time_column(t: &Table) -> (r: Result<Vec<i64>, AnalysisError>)
    ensures
        match r {
            Ok(x) => spec_reals_col(t.cols@, "time"@) == Some(x@) && spec_strictly_increasing(x@)
                && spec_all_valid_ticks(x@),
            Err(e) => {
                ||| e matches AnalysisError::UnknownColumn(n) && spec_index_of(
                    spec_col_names(t.cols@),
                    n@,
                ) is None
                ||| e == AnalysisError::TypeMismatch
                ||| e == AnalysisError::NonFiniteInput
            },
        },
        ({
            let time = spec_reals_col(t.cols@, "time"@);
            (time is Some && spec_strictly_increasing(time.unwrap()) && spec_all_valid_ticks(
                time.unwrap(),
            )) ==> r is Ok
        }),
{
    let x: Vec<i64> = match t.find_column("time") {
        Some(i) => match &t.cols[i].data {
            ColData::Reals(v) => v.clone(),
            _ => {
                return Err(AnalysisError::TypeMismatch);
            },
        },
        None => {
            return Err(AnalysisError::UnknownColumn(String::from_str("time")));
        },
    };
    if !check_strictly_increasing(&x) {
        return Err(AnalysisError::TypeMismatch);
    }
    if !check_all_valid_ticks(&x) {
        return Err(AnalysisError::NonFiniteInput);
    }
    Ok(x)
}

/// Reads a boolean channel column of a table.
fn bool_column(t: &Table, name: &str) -> (r: Result<Vec<bool>, AnalysisError>)
    ensures
        match r {
            Ok(c) => spec_bools_col(t.cols@, name@) == Some(c@),
            Err(e) => {
                ||| e matches AnalysisError::UnknownColumn(n) && spec_index_of(
                    spec_col_names(t.cols@),
                    n@,
                ) is None && n@ == name@
                ||| e == AnalysisError::TypeMismatch
            },
        },
        spec_bools_col(t.cols@, name@) is Some ==> r is Ok,
{
    match t.find_column(name) {
        Some(i) => match &t.cols[i].data {
            ColData::Bools(v) => Ok(v.clone()),
            _ => Err(AnalysisError::TypeMismatch),
        },
        None => Err(AnalysisError::UnknownColumn(String::from_str(name))),
    }
}

/// The filter path's gait cycles of a preprocessed table: the
/// double-support boundaries bracketed by a zero time and the last
/// observed time, paired off. The table must carry its support columns
/// and at least one sample.
pub fn cal_gait(t: &Table) -> (r: Result<Vec<(i64, i64)>, AnalysisError>)
    ensures
        match r {
            Ok(pairs) => ({
                &&& spec_reals_col(t.cols@, "time"@) matches Some(x)
                &&& spec_bools_col(t.cols@, "double_support"@) matches Some(db)
                &&& ({
                    let x = spec_reals_col(t.cols@, "time"@).unwrap();
                    let db = spec_bools_col(t.cols@, "double_support"@).unwrap();
                    &&& spec_strictly_increasing(x)
                    &&& spec_all_valid_ticks(x)
                    &&& x.len() == db.len() && x.len() > 0 && pairs@ == spec_adjacent_pairs(
                        seq![0i64] + spec_gait_boundaries(x, db) + seq![x.last()],
                    )
                })
            }),
            Err(e) => {
                ||| e matches AnalysisError::UnknownColumn(_)
                ||| e == AnalysisError::TypeMismatch
                ||| e == AnalysisError::NonFiniteInput
                ||| e == AnalysisError::EmptyInput
            },
        },
        ({
            let time = spec_reals_col(t.cols@, "time"@);
            let db = spec_bools_col(t.cols@, "double_support"@);
            (time is Some && spec_strictly_increasing(time.unwrap()) && spec_all_valid_ticks(
                time.unwrap(),
            ) && db is Some && db.unwrap().len() == time.unwrap().len() && time.unwrap().len() > 0)
                ==> r is Ok
        }),
{
    let x = match time_column(t) {
        Ok(x) => x,
        Err(e) => {
            return Err(e);
        },
    };
    let db = match bool_column(t, crate::support::db_sup()) {
        Ok(c) => c,
        Err(e) => {
            return Err(e);
        },
    };
    if x.len() != db.len() || x.len() == 0 {
        return Err(AnalysisError::EmptyInput);
    }
    Ok(gait_with_sentinels(&x, &db))
}

/// The bare gait cycles of a preprocessed table, without sentinels:
/// every other double-support START is a boundary, consecutive
/// boundaries are cycles. The selection path works on this list.
pub fn gait_cycles_of(t: &Table) -> (r: Result<Vec<(i64, i64)>, AnalysisError>)
    ensures
        match r {
            Ok(pairs) => ({
                &&& spec_reals_col(t.cols@, "time"@) matches Some(x)
                &&& spec_bools_col(t.cols@, "double_support"@) matches Some(db)
                &&& ({
                    let x = spec_reals_col(t.cols@, "time"@).unwrap();
                    let db = spec_bools_col(t.cols@, "double_support"@).unwrap();
                    &&& spec_strictly_increasing(x)
                    &&& spec_all_valid_ticks(x)
                    &&& x.len() == db.len() && pairs@ == spec_adjacent_pairs(
                        spec_gait_boundaries(x, db),
                    ) && spec_valid_intervals(pairs@)
                })
            }),
            Err(e) => {
                ||| e matches AnalysisError::UnknownColumn(_)
                ||| e == AnalysisError::TypeMismatch
                ||| e == AnalysisError::NonFiniteInput
            },
        },
        ({
            let time = spec_reals_col(t.cols@, "time"@);
            let db = spec_bools_col(t.cols@, "double_support"@);
            (time is Some && spec_strictly_increasing(time.unwrap()) && spec_all_valid_ticks(
                time.unwrap(),
            ) && db is Some && db.unwrap().len() == time.unwrap().len()) ==> r is Ok
        }),
{
    let x = match time_column(t) {
        Ok(x) => x,
        Err(e) => {
            return Err(e);
        },
    };
    let db = match bool_column(t, crate::support::db_sup()) {
        Ok(c) => c,
        Err(e) => {
            return Err(e);
        },
    };
    if x.len() != db.len() {
        return Err(AnalysisError::TypeMismatch);
    }
    let (_bounds, cycles) = crate::gait::gait_cycles(&x, &db);
    proof {
        lemma_gait_cycles_valid(x@, db@);
    }
    Ok(cycles)
}

/// The support intervals of one support channel of a preprocessed
/// table: the double-support channel pairs `start[i]` with
/// `end[i + 1]`, the single-support channels drop the first and last
/// merged edge and pair the rest.
pub fn cal_x_support(t: &Table, sup_type: &str) -> (r: Result<Vec<(i64, i64)>, AnalysisError>)
    ensures
        match r {
            Ok(pairs) => ({
                &&& spec_reals_col(t.cols@, "time"@) matches Some(x)
                &&& spec_bools_col(t.cols@, sup_type@) matches Some(c)
                &&& ({
                    let x = spec_reals_col(t.cols@, "time"@).unwrap();
                    let c = spec_bools_col(t.cols@, sup_type@).unwrap();
                    &&& spec_strictly_increasing(x)
                    &&& spec_all_valid_ticks(x)
                    &&& x.len() == c.len() && pairs@ == (if sup_type@ == "double_support"@ {
                        spec_db_pairs(x, c)
                    } else {
                        spec_support_pairs(x, c)
                    })
                    &&& forall|i: int| 0 <= i < pairs@.len() ==> (#[trigger] pairs@[i]).0
                        < pairs@[i].1
                    &&& (sup_type@ != "double_support"@ || (c.len() > 0 && c[0])) ==> forall|
                        i: int,
                    |
                        0 <= i && i + 1 < pairs@.len() ==> (#[trigger] pairs@[i]).1 < pairs@[i
                            + 1].0
                })
            }),
            Err(e) => {
                ||| e matches AnalysisError::UnknownColumn(_)
                ||| e == AnalysisError::TypeMismatch
                ||| e == AnalysisError::NonFiniteInput
            },
        },
        ({
            let time = spec_reals_col(t.cols@, "time"@);
            let c = spec_bools_col(t.cols@, sup_type@);
            (time is Some && spec_strictly_increasing(time.unwrap()) && spec_all_valid_ticks(
                time.unwrap(),
            ) && c is Some && c.unwrap().len() == time.unwrap().len()) ==> r is Ok
        }),
{
    let x = match time_column(t) {
        Ok(x) => x,
        Err(e) => {
            return Err(e);
        },
    };
    let c = match bool_column(t, sup_type) {
        Ok(c) => c,
        Err(e) => {
            return Err(e);
        },
    };
    if x.len() != c.len() {
        return Err(AnalysisError::TypeMismatch);
    }
    if crate::strutil::str_eq(sup_type, "double_support") {
        Ok(db_intervals(&x, &c))
    } else {
        Ok(support_intervals(&x, &c))
    }
}

/// The per-signal slice of a recording's result: the raw samples and
/// the five-number summaries of their per-cycle minima and maxima.
pub struct SignalSummary {
    pub values: Vec<i64>,
    pub min_q: Option<Quantile>,
    pub max_q: Option<Quantile>,
}

/// The analysed recording: the time base, one summary per (position,
/// variable) pair in enumeration order, the raw contact codes, the gait
/// boundaries with the cycle-duration summary, and the support-duration
/// summaries.
pub struct RawData {
    pub x: Vec<i64>,
    pub y: Vec<SignalSummary>,
    pub l_contact: Vec<i64>,
    pub r_contact: Vec<i64>,
    pub gait: (Vec<i64>, Option<Quantile>),
    pub db: Option<Quantile>,
    pub lt: Option<Quantile>,
    pub rt: Option<Quantile>,
}

/// The segment at one index of the fixed iteration order.
pub open spec fn spec_position_at(i: int) -> Position {
    if i == 0 {
        Position::L
    } else if i == 1 {
        Position::T
    } else if i == 2 {
        Position::C
    } else if i == 3 {
        Position::ScapularLT
    } else if i == 4 {
        Position::ScapularRT
    } else if i == 5 {
        Position::SC
    } else if i == 6 {
        Position::HipLT
    } else if i == 7 {
        Position::HipRT
    } else if i == 8 {
        Position::KneeLT
    } else if i == 9 {
        Position::KneeRT
    } else if i == 10 {
        Position::ShoulderLT
    } else if i == 11 {
        Position::ShoulderRT
    } else if i == 12 {
        Position::PSISLT
    } else if i == 13 {
        Position::PSISRT
    } else if i == 14 {
        Position::FootLT
    } else {
        Position::FootRT
    }
}

/// The signal at one index of the fixed iteration order.
pub open spec fn spec_variable_at(i: int) -> Variable {
    if i == 0 {
        Variable::AccelX
    } else if i == 1 {
        Variable::AccelY
    } else if i == 2 {
        Variable::AccelZ
    } else if i == 3 {
        Variable::Course
    } else if i == 4 {
        Variable::Pitch
    } else if i == 5 {
        Variable::Roll
    } else if i == 6 {
        Variable::MagnetX
    } else if i == 7 {
        Variable::MagnetY
    } else {
        Variable::MagnetZ
    }
}

/// The optional five-number summary of a sample vector: present exactly
/// when the vector is not empty.
pub open spec fn spec_opt_quantile(v: Seq<i64>) -> Option<Quantile> {
    if v.len() > 0 {
        Some(spec_quantile5(v))
    } else {
        None
    }
}

/// Whether a table is ready for the pipeline: the time column is
/// present, strictly increasing and within tick range, the contact
/// columns are present integer columns of the same height, and every
/// signal column is a real column of the same height. On such a table
/// the analysis is owed a result.
pub open spec fn spec_parse_file_ready(cols: Seq<crate::table::Column>) -> bool {
    let time = spec_reals_col(cols, "time"@);
    let lc = spec_ints_col(cols, "Noraxon MyoMotion-Segments-Foot LT-Contact"@);
    let rc = spec_ints_col(cols, "Noraxon MyoMotion-Segments-Foot RT-Contact"@);
    &&& time is Some
    &&& spec_strictly_increasing(time.unwrap())
    &&& spec_all_valid_ticks(time.unwrap())
    &&& lc is Some
    &&& lc.unwrap().len() == time.unwrap().len()
    &&& rc is Some
    &&& rc.unwrap().len() == time.unwrap().len()
    &&& forall|pi: int, vi: int|
        0 <= pi < 16 && 0 <= vi < 9 ==> ({
            let col = #[trigger] spec_reals_col(
                cols,
                spec_name_string(spec_variable_at(vi), spec_position_at(pi)),
            );
            col is Some && col.unwrap().len() == time.unwrap().len()
        })
}

/// What one recording's analysis must satisfy, relating the result to
/// the table's columns and the selections.
pub open spec fn spec_parse_file_ok(
    cols: Seq<crate::table::Column>,
    sels: Seq<(i64, i64)>,
    rd: RawData,
) -> bool {
    let time = spec_reals_col(cols, "time"@);
    let lraw = spec_ints_col(cols, "Noraxon MyoMotion-Segments-Foot LT-Contact"@);
    let rraw = spec_ints_col(cols, "Noraxon MyoMotion-Segments-Foot RT-Contact"@);
    &&& time == Some(rd.x@)
    &&& spec_strictly_increasing(rd.x@)
    &&& spec_all_valid_ticks(rd.x@)
    &&& lraw == Some(rd.l_contact@)
    &&& rraw == Some(rd.r_contact@)
    &&& rd.l_contact@.len() == rd.x@.len()
    &&& rd.r_contact@.len() == rd.x@.len()
    &&& ({
        let ltb = spec_decoded(rd.l_contact@);
        let rtb = spec_decoded(rd.r_contact@);
        let dbb = spec_and_channel(ltb, rtb);
        let bounds = spec_gait_boundaries(rd.x@, dbb);
        let valid = spec_valid_cycles(spec_adjacent_pairs(bounds), sels);
        &&& rd.gait.0@ == bounds
        &&& rd.gait.1 == spec_opt_quantile(spec_gaps(valid))
        &&& rd.db == spec_opt_quantile(
            spec_gaps(spec_valid_cycles(spec_support_pairs(rd.x@, dbb), sels)),
        )
        &&& rd.lt == spec_opt_quantile(
            spec_gaps(spec_valid_cycles(spec_support_pairs(rd.x@, ltb), sels)),
        )
        &&& rd.rt == spec_opt_quantile(
            spec_gaps(spec_valid_cycles(spec_support_pairs(rd.x@, rtb), sels)),
        )
        &&& rd.y@.len() == 144
        &&& forall|pi: int, vi: int|
            0 <= pi < 16 && 0 <= vi < 9 ==> ({
                let col = spec_reals_col(
                    cols,
                    spec_name_string(spec_variable_at(vi), spec_position_at(pi)),
                );
                let e = #[trigger] rd.y@[pi * 9 + vi];
                &&& col == Some(e.values@)
                &&& e.min_q == spec_opt_quantile(
                    spec_cycle_mins(e.values@, rd.x@, valid, valid.len() as int),
                )
                &&& e.max_q == spec_opt_quantile(
                    spec_cycle_maxs(e.values@, rd.x@, valid, valid.len() as int),
                )
            })
    })
}

/// Analyses one recording: decodes the contacts, extracts gait cycles
/// and support intervals, keeps the cycles the selections cover, and
/// summarises durations and per-cycle extrema of every signal. The
/// columns must be present with their kinds, the time base strictly
/// increasing and within tick range.
pub fn parse_file(t: &Table, selections: &Vec<(i64, i64)>) -> (r: Result<RawData, AnalysisError>)
    requires
        spec_valid_intervals(selections@),
    ensures
        match r {
            Ok(rd) => spec_parse_file_ok(t.cols@, selections@, rd),
            Err(e) => {
                ||| e matches AnalysisError::UnknownColumn(n) && spec_index_of(
                    spec_col_names(t.cols@),
                    n@,
                ) is None
                ||| e == AnalysisError::TypeMismatch
                ||| e == AnalysisError::NonFiniteInput
            },
        },
        spec_parse_file_ready(t.cols@) ==> r is Ok,
{
    let x: Vec<i64> = match t.find_column("time") {
        Some(i) => match &t.cols[i].data {
            ColData::Reals(v) => v.clone(),
            _ => {
                return Err(AnalysisError::TypeMismatch);
            },
        },
        None => {
            return Err(AnalysisError::UnknownColumn(String::from_str("time")));
        },
    };
    if !check_strictly_increasing(&x) {
        return Err(AnalysisError::TypeMismatch);
    }
    if !check_all_valid_ticks(&x) {
        return Err(AnalysisError::NonFiniteInput);
    }
    proof {
        assert(spec_reals_col(t.cols@, "time"@) == Some(x@));
    }
    let l_contact: Vec<i64> = match t.find_column(crate::support::lt_contact()) {
        Some(i) => match &t.cols[i].data {
            ColData::Ints(v) => v.clone(),
            _ => {
                return Err(AnalysisError::TypeMismatch);
            },
        },
        None => {
            return Err(
                AnalysisError::UnknownColumn(String::from_str(crate::support::lt_contact())),
            );
        },
    };
    let r_contact: Vec<i64> = match t.find_column(crate::support::rt_contact()) {
        Some(i) => match &t.cols[i].data {
            ColData::Ints(v) => v.clone(),
            _ => {
                return Err(AnalysisError::TypeMismatch);
            },
        },
        None => {
            return Err(
                AnalysisError::UnknownColumn(String::from_str(crate::support::rt_contact())),
            );
        },
    };
    if l_contact.len() != x.len() || r_contact.len() != x.len() {
        return Err(AnalysisError::TypeMismatch);
    }
    let ltb = decode_contact(&l_contact);
    let rtb = decode_contact(&r_contact);
    proof {
        assert(ltb@ =~= spec_decoded(l_contact@));
        assert(rtb@ =~= spec_decoded(r_contact@));
    }
    let mut dbb: Vec<bool> = Vec::new();
    let mut i: usize = 0;
    while i < ltb.len()
        invariant
            i <= ltb@.len(),
            ltb@.len() == rtb@.len(),
            dbb@.len() == i,
            forall|k: int| 0 <= k < i ==> #[trigger] dbb@[k] == (ltb@[k] && rtb@[k]),
        decreases ltb@.len() - i,
    {
        dbb.push(ltb[i] && rtb[i]);
        i = i + 1;
    }
    proof {
        assert(dbb@ =~= spec_and_channel(ltb@, rtb@));
    }
    let (bounds, cycles) = crate::gait::gait_cycles(&x, &dbb);
    let valid = valid_cycles(&cycles, selections);
    proof {
        lemma_gait_cycles_valid(x@, dbb@);
        lemma_valid_cycles_valid(spec_adjacent_pairs(spec_gait_boundaries(x@, dbb@)), selections@);
    }
    let gait_q = gap_quantile(&valid);
    let db_pairs = support_intervals(&x, &dbb);
    let lt_pairs = support_intervals(&x, &ltb);
    let rt_pairs = support_intervals(&x, &rtb);
    proof {
        lemma_support_pairs_valid(x@, dbb@);
        lemma_support_pairs_valid(x@, ltb@);
        lemma_support_pairs_valid(x@, rtb@);
    }
    let db_valid = valid_cycles(&db_pairs, selections);
    let lt_valid = valid_cycles(&lt_pairs, selections);
    let rt_valid = valid_cycles(&rt_pairs, selections);
    proof {
        lemma_valid_cycles_valid(spec_support_pairs(x@, dbb@), selections@);
        lemma_valid_cycles_valid(spec_support_pairs(x@, ltb@), selections@);
        lemma_valid_cycles_valid(spec_support_pairs(x@, rtb@), selections@);
    }
    let db_q = gap_quantile(&db_valid);
    let lt_q = gap_quantile(&lt_valid);
    let rt_q = gap_quantile(&rt_valid);
    let positions = Position::iterator();
    let variables = Variable::iterator();
    let mut y: Vec<SignalSummary> = Vec::new();
    let mut pi: usize = 0;
    while pi < 16
        invariant
            pi <= 16,
            positions@ == crate::config::spec_positions(),
            variables@ == crate::config::spec_variables(),
            spec_reals_col(t.cols@, "time"@) == Some(x@),
            valid@ == spec_valid_cycles(
                spec_adjacent_pairs(
                    spec_gait_boundaries(
                        x@,
                        spec_and_channel(spec_decoded(l_contact@), spec_decoded(r_contact@)),
                    ),
                ),
                selections@,
            ),
            y@.len() == pi * 9,
            forall|p: int, v: int|
                0 <= p < pi && 0 <= v < 9 ==> ({
                    let col = spec_reals_col(
                        t.cols@,
                        spec_name_string(spec_variable_at(v), spec_position_at(p)),
                    );
                    let e = #[trigger] y@[p * 9 + v];
                    &&& col == Some(e.values@)
                    &&& e.min_q == spec_opt_quantile(
                        spec_cycle_mins(e.values@, x@, valid@, valid@.len() as int),
                    )
                    &&& e.max_q == spec_opt_quantile(
                        spec_cycle_maxs(e.values@, x@, valid@, valid@.len() as int),
                    )
                }),
        decreases 16 - pi,
    {
        let mut vi: usize = 0;
        while vi < 9
            invariant
                pi < 16,
                vi <= 9,
                positions@ == crate::config::spec_positions(),
                variables@ == crate::config::spec_variables(),
                spec_reals_col(t.cols@, "time"@) == Some(x@),
                valid@ == spec_valid_cycles(
                    spec_adjacent_pairs(
                        spec_gait_boundaries(
                            x@,
                            spec_and_channel(spec_decoded(l_contact@), spec_decoded(r_contact@)),
                        ),
                    ),
                    selections@,
                ),
                y@.len() == pi * 9 + vi,
                forall|p: int, v: int|
                    0 <= p * 9 + v < pi * 9 + vi && 0 <= v < 9 && 0 <= p ==> ({
                        let col = spec_reals_col(
                            t.cols@,
                            spec_name_string(spec_variable_at(v), spec_position_at(p)),
                        );
                        let e = #[trigger] y@[p * 9 + v];
                        &&& col == Some(e.values@)
                        &&& e.min_q == spec_opt_quantile(
                            spec_cycle_mins(e.values@, x@, valid@, valid@.len() as int),
                        )
                        &&& e.max_q == spec_opt_quantile(
                            spec_cycle_maxs(e.values@, x@, valid@, valid@.len() as int),
                        )
                    }),
            decreases 9 - vi,
        {
            let name = Variable::to_name_string(&variables[vi], &positions[pi]);
            proof {
                assert(crate::config::spec_positions()[pi as int] == spec_position_at(pi as int));
                assert(crate::config::spec_variables()[vi as int] == spec_variable_at(vi as int));
            }
            let vals: Vec<i64> = match t.find_column(name.as_str()) {
                Some(ci) => match &t.cols[ci].data {
                    ColData::Reals(v) => v.clone(),
                    _ => {
                        return Err(AnalysisError::TypeMismatch);
                    },
                },
                None => {
                    return Err(AnalysisError::UnknownColumn(name));
                },
            };
            if vals.len() != x.len() {
                return Err(AnalysisError::TypeMismatch);
            }
            let (min_q, max_q) = get_min_max_quantile(&vals, &x, &valid);
            y.push(SignalSummary { values: vals, min_q, max_q });
            proof {
                assert(pi * 9 + vi + 1 <= pi * 9 + 9);
            }
            vi = vi + 1;
        }
        pi = pi + 1;
    }
    let rd = RawData {
        x,
        y,
        l_contact,
        r_contact,
        gait: (bounds, gait_q),
        db: db_q,
        lt: lt_q,
        rt: rt_q,
    };
    proof {
        assert forall|p: int, v: int| 0 <= p < 16 && 0 <= v < 9 implies ({
            let col = spec_reals_col(
                t.cols@,
                spec_name_string(spec_variable_at(v), spec_position_at(p)),
            );
            let e = #[trigger] rd.y@[p * 9 + v];
            &&& col == Some(e.values@)
            &&& e.min_q == spec_opt_quantile(
                spec_cycle_mins(e.values@, rd.x@, valid@, valid@.len() as int),
            )
            &&& e.max_q == spec_opt_quantile(
                spec_cycle_maxs(e.values@, rd.x@, valid@, valid@.len() as int),
            )
        }) by {
            assert(0 <= p * 9 + v < 16 * 9) by (nonlinear_arith)
                requires
                    0 <= p < 16,
                    0 <= v < 9,
            ;
        }
    }
    Ok(rd)
}

} // verus!
