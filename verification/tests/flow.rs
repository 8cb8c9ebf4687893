//! The table remapper, the preprocessing steps, the full per-recording
//! pipeline, the export row, the concatenation, header rewriting and
//! the batch worker on concrete recordings.

use gaitool::batch::{batch_step, BatchState, FileInput, Message};
use gaitool::config::{Position, Variable};
use gaitool::errors::AnalysisError;
use gaitool::export::{build_row, concat_rows, Cell, ExportRow};
use gaitool::header::{
    check_info, parse_selections, swrite, validate_info, validate_selections, Header,
};
use gaitool::pipeline::{cal_gait, cal_x_support, parse_file};
use gaitool::selection::intervals_starting_in;
use gaitool::support::{remap_contact, split_support};
use gaitool::table::{remap_columns, rename_df, diff_columns, ColData, Column, Table};

const S: i64 = 1_000_000;

fn col(name: &str, data: ColData) -> Column {
    Column { name: String::from(name), data }
}

/// The worked example: seven samples, two double-support phases.
fn sample_table() -> Table {
    let time: Vec<i64> = (0..7).map(|i| i * S / 10).collect();
    let lt = vec![1000, 1000, 0, 0, 1000, 1000, 0];
    let rt = vec![1000, 0, 0, 1000, 1000, 0, 0];
    let mut cols = vec![
        col("time", ColData::Reals(time)),
        col(
            "Noraxon MyoMotion-Segments-Foot LT-Contact",
            ColData::Ints(lt),
        ),
        col(
            "Noraxon MyoMotion-Segments-Foot RT-Contact",
            ColData::Ints(rt),
        ),
    ];
    for p in Position::iterator() {
        for v in Variable::iterator() {
            let name = Variable::to_name_string(&v, &p);
            cols.push(col(name.as_str(), ColData::Reals(vec![5, 1, 7, 2, 9, 0, 4])));
        }
    }
    Table { cols }
}

fn info_rows(selection: &str) -> Vec<Vec<String>> {
    let mut row0: Vec<String> = (0..12).map(|i| format!("h{}", i)).collect();
    row0[5] = String::from("exported with version");
    let mut row1: Vec<String> = (0..12).map(|i| format!("v{}", i)).collect();
    row1[11] = String::from(selection);
    vec![row0, row1]
}

#[test]
fn selections_parse_into_tick_windows() {
    let sels = parse_selections("4.37-15.965 25.375-35.755").unwrap();
    assert_eq!(
        sels,
        vec![(4_370_000, 15_965_000), (25_375_000, 35_755_000)]
    );
    assert!(parse_selections("4.37-abc").is_none());
    assert!(parse_selections("4.37").is_none());
}

#[test]
fn validate_wrappers_surface_error_kinds() {
    assert_eq!(
        validate_selections("oops"),
        Err(AnalysisError::BadSelection)
    );
    assert!(validate_selections("1-2").is_ok());
    let mut bad = info_rows("1-2");
    bad[0].pop();
    assert_eq!(validate_info(&bad), Err(AnalysisError::BadHeader));
    assert!(validate_info(&info_rows("1-2")).is_ok());
}

#[test]
fn error_messages_render() {
    assert_eq!(AnalysisError::EmptyInput.message(), "empty input");
    assert_eq!(
        AnalysisError::UnknownColumn(String::from("speed")).message(),
        "unknown column: speed"
    );
}

#[test]
fn info_check_rejects_short_rows_then_missing_version() {
    assert!(check_info(&info_rows("")).is_none());
    let mut short = info_rows("");
    short[1].pop();
    assert_eq!(check_info(&short).unwrap(), "info not 12 len");
    let mut unversioned = info_rows("");
    unversioned[0][5] = String::from("something else");
    assert_eq!(check_info(&unversioned).unwrap(), "no version info");
}

#[test]
fn rename_follows_the_dictionary() {
    let mut t = Table {
        cols: vec![
            col("a", ColData::Ints(vec![1])),
            col("b", ColData::Ints(vec![2])),
        ],
    };
    let origs = vec![String::from("b"), String::from("a")];
    let news = vec![String::from("B2"), String::from("A2")];
    assert!(rename_df(&mut t, &origs, &news).is_ok());
    assert_eq!(t.cols[0].name, "A2");
    assert_eq!(t.cols[1].name, "B2");
    let missing = vec![String::from("zz")];
    let to = vec![String::from("z2")];
    match rename_df(&mut t, &missing, &to) {
        Err(AnalysisError::UnknownColumn(n)) => assert_eq!(n, "zz"),
        other => panic!("unexpected: {:?}", other.is_ok()),
    }
}

#[test]
fn remap_selects_then_renames_wider_tables() {
    let t = Table {
        cols: vec![
            col("raw1", ColData::Ints(vec![1])),
            col("raw2", ColData::Ints(vec![2])),
            col("extra", ColData::Ints(vec![3])),
        ],
    };
    let origs = vec![String::from("raw2"), String::from("raw1")];
    let news = vec![String::from("two"), String::from("one")];
    let out = remap_columns(t, &origs, &news).unwrap();
    let names: Vec<&str> = out.cols.iter().map(|c| c.name.as_str()).collect();
    assert_eq!(names, vec!["two", "one"]);
    match &out.cols[0].data {
        ColData::Ints(v) => assert_eq!(v, &vec![2]),
        _ => panic!("wrong kind"),
    }
}

#[test]
fn remap_passes_narrow_tables_through() {
    let t = Table {
        cols: vec![col("one", ColData::Ints(vec![1]))],
    };
    let origs = vec![String::from("raw1"), String::from("raw2")];
    let news = vec![String::from("one"), String::from("two")];
    let out = remap_columns(t, &origs, &news).unwrap();
    assert_eq!(out.cols.len(), 1);
    assert_eq!(out.cols[0].name, "one");
}

#[test]
fn diff_reports_added_and_removed_names() {
    let origs = vec![String::from("a"), String::from("b"), String::from("c")];
    let schema = vec![String::from("b"), String::from("d")];
    let (added, removed) = diff_columns(&origs, &schema);
    assert_eq!(added, vec![String::from("d")]);
    assert_eq!(removed, vec![String::from("a"), String::from("c")]);
}

#[test]
fn contact_remap_and_support_columns() {
    let t = sample_table();
    let t = remap_contact(t).unwrap();
    let t = split_support(t).unwrap();
    let names: Vec<&str> = t.cols.iter().map(|c| c.name.as_str()).collect();
    assert!(names.contains(&"double_support"));
    assert!(names.contains(&"single_support"));
    assert!(names.contains(&"LT_single_support"));
    assert!(names.contains(&"RT_single_support"));
    let db = t
        .cols
        .iter()
        .find(|c| c.name == "double_support")
        .unwrap();
    match &db.data {
        ColData::Bools(b) => {
            assert_eq!(b, &vec![true, false, false, false, true, false, false])
        }
        _ => panic!("wrong kind"),
    }
}

#[test]
fn contact_remap_requires_integer_codes() {
    let mut t = sample_table();
    t.cols[1].data = ColData::Reals(vec![0; 7]);
    assert!(matches!(remap_contact(t), Err(AnalysisError::TypeMismatch)));
}

#[test]
fn gait_and_support_intervals_from_the_table() {
    let t = sample_table();
    let t = remap_contact(t).unwrap();
    let t = split_support(t).unwrap();
    let gait = cal_gait(&t).unwrap();
    assert_eq!(gait, vec![(0, 4 * S / 10), (4 * S / 10, 6 * S / 10)]);
    let db = cal_x_support(&t, "double_support").unwrap();
    // One double-support start at 0.4; ends at 0.1 and 0.5.
    assert_eq!(db, Vec::<(i64, i64)>::new());
    // Left single support runs over rows 1 and 5; its merged edges are
    // 0.1, 0.2, 0.5, 0.6, and dropping the outer two pairs the middle.
    let ls = cal_x_support(&t, "LT_single_support").unwrap();
    assert_eq!(ls, vec![(2 * S / 10, 5 * S / 10)]);
}

#[test]
fn s1_pipeline_end_to_end() {
    let t = sample_table();
    let sels = vec![(0, 4 * S / 10)];
    let rd = parse_file(&t, &sels).unwrap();
    assert_eq!(rd.x.len(), 7);
    assert_eq!(rd.l_contact, vec![1000, 1000, 0, 0, 1000, 1000, 0]);
    assert_eq!(rd.gait.0, vec![4 * S / 10]);
    // No chained cycle fits the window, so no duration summary.
    assert!(rd.gait.1.is_none());
    assert_eq!(rd.y.len(), 144);
    // Every signal is the same vector; its one valid window is empty of
    // cycles, so the per-cycle summaries are missing.
    assert!(rd.y[0].values == vec![5, 1, 7, 2, 9, 0, 4]);
}

#[test]
fn pipeline_summarises_per_cycle_extrema() {
    let mut t = sample_table();
    // Make the double-support channel rise twice so one chained cycle
    // (0.1, 0.5) exists: boundaries at every other start.
    t.cols[1].data = ColData::Ints(vec![0, 1000, 0, 1000, 0, 1000, 0]);
    t.cols[2].data = ColData::Ints(vec![0, 1000, 0, 1000, 0, 1000, 0]);
    let sels = vec![(0, 6 * S / 10)];
    let rd = parse_file(&t, &sels).unwrap();
    assert_eq!(rd.gait.0, vec![S / 10, 5 * S / 10]);
    let q = rd.gait.1.clone().unwrap();
    assert_eq!(q.min, 4 * S / 10);
    assert_eq!(q.max, 4 * S / 10);
    // Window [0.1, 0.5): samples 1, 7, 2, 9 of every signal.
    let sig = &rd.y[0];
    let min_q = sig.min_q.clone().unwrap();
    let max_q = sig.max_q.clone().unwrap();
    assert_eq!(min_q.min, 1);
    assert_eq!(max_q.max, 9);
}

#[test]
fn pipeline_names_its_failures() {
    let mut missing = sample_table();
    missing.cols.remove(0);
    match parse_file(&missing, &vec![]) {
        Err(AnalysisError::UnknownColumn(n)) => assert_eq!(n, "time"),
        _ => panic!("expected a missing column"),
    }
    let mut wrong = sample_table();
    wrong.cols[0].data = ColData::Ints(vec![0; 7]);
    assert!(matches!(
        parse_file(&wrong, &vec![]),
        Err(AnalysisError::TypeMismatch)
    ));
    let mut far = sample_table();
    far.cols[0].data = ColData::Reals(vec![0, i64::MAX / 2, i64::MAX - 1, i64::MAX, 1, 2, 3]);
    assert!(matches!(
        parse_file(&far, &vec![]),
        Err(AnalysisError::TypeMismatch) | Err(AnalysisError::NonFiniteInput)
    ));
}

#[test]
fn export_row_carries_the_schema() {
    let t = sample_table();
    let sels = vec![(0, 6 * S / 10)];
    let rd = parse_file(&t, &sels).unwrap();
    let summaries: Vec<_> = rd
        .y
        .iter()
        .map(|s| (s.min_q.clone(), s.max_q.clone()))
        .collect();
    let gait = gaitool::aggregate::gap_stats(&vec![(0, 4 * S / 10)]);
    let ls = gaitool::aggregate::gap_stats(&vec![]);
    let rs = gaitool::aggregate::gap_stats(&vec![]);
    let db = gaitool::aggregate::gap_stats(&vec![]);
    let row = build_row(
        String::from("sample.csv"),
        String::from("0-0.4"),
        gait,
        ls,
        rs,
        db,
        &summaries,
    );
    assert_eq!(row.names.len(), 1446);
    assert_eq!(row.cells.len(), 1446);
    assert_eq!(row.names[0], "filename");
    assert_eq!(row.names[1], "selection");
    assert_eq!(row.names[2], "gait mean");
    assert_eq!(row.names[5], "db mean");
    assert_eq!(row.names[6], "L Accel Sensor X (mG)_min");
    assert_eq!(row.names[7], "L Accel Sensor X (mG)_Q1");
    assert_eq!(row.names[8], "L Accel Sensor X (mG)_median");
    assert_eq!(row.names[11], "L Accel Sensor X (mG)_min");
    assert_eq!(row.names[16], "L Accel Sensor Y (mG)_min");
    match &row.cells[0] {
        Cell::Text(s) => assert_eq!(s, "sample.csv"),
        _ => panic!("wrong cell"),
    }
    match &row.cells[2] {
        Cell::MeanGap { sum, count } => {
            assert_eq!(*sum, (4 * S / 10) as i128);
            assert_eq!(*count, 1);
        }
        _ => panic!("wrong cell"),
    }
}

#[test]
fn concat_stacks_rows_of_one_schema() {
    let t = sample_table();
    let rd = parse_file(&t, &vec![(0, 6 * S / 10)]).unwrap();
    let summaries: Vec<_> = rd
        .y
        .iter()
        .map(|s| (s.min_q.clone(), s.max_q.clone()))
        .collect();
    let mk = |name: &str| {
        build_row(
            String::from(name),
            String::from(""),
            gaitool::aggregate::gap_stats(&vec![]),
            gaitool::aggregate::gap_stats(&vec![]),
            gaitool::aggregate::gap_stats(&vec![]),
            gaitool::aggregate::gap_stats(&vec![]),
            &summaries,
        )
    };
    let (schema, matrix) = concat_rows(vec![mk("a.csv"), mk("b.csv")]);
    assert_eq!(schema.len(), 1446);
    assert_eq!(matrix.len(), 2);
    assert_eq!(matrix[0].len(), 1446);
    match &matrix[1][0] {
        Cell::Text(s) => assert_eq!(s, "b.csv"),
        _ => panic!("wrong cell"),
    }
}

fn text_row(names: &[&str], cells: &[&str]) -> ExportRow {
    ExportRow {
        names: names.iter().map(|n| String::from(*n)).collect(),
        cells: cells.iter().map(|c| Cell::Text(String::from(*c))).collect(),
    }
}

fn cell_str(c: &Cell) -> Option<String> {
    match c {
        Cell::Text(s) => Some(s.clone()),
        Cell::Missing => None,
        _ => panic!("unexpected cell kind"),
    }
}

#[test]
fn concat_unions_columns_by_name() {
    let rows = vec![
        text_row(&["alpha", "beta"], &["1", "2"]),
        text_row(&["beta", "gamma"], &["3", "4"]),
    ];
    let (schema, matrix) = concat_rows(rows);
    let names: Vec<&str> = schema.iter().map(|s| s.as_str()).collect();
    assert_eq!(names, vec!["alpha", "beta", "gamma"]);
    let r0: Vec<Option<String>> = matrix[0].iter().map(cell_str).collect();
    let r1: Vec<Option<String>> = matrix[1].iter().map(cell_str).collect();
    assert_eq!(r0, vec![Some("1".into()), Some("2".into()), None]);
    assert_eq!(r1, vec![None, Some("3".into()), Some("4".into())]);
}

#[test]
fn concat_matches_duplicate_names_by_occurrence() {
    let rows = vec![
        text_row(&["m", "m"], &["1", "2"]),
        text_row(&["m"], &["3"]),
    ];
    let (schema, matrix) = concat_rows(rows);
    let names: Vec<&str> = schema.iter().map(|s| s.as_str()).collect();
    assert_eq!(names, vec!["m", "m"]);
    let r0: Vec<Option<String>> = matrix[0].iter().map(cell_str).collect();
    let r1: Vec<Option<String>> = matrix[1].iter().map(cell_str).collect();
    assert_eq!(r0, vec![Some("1".into()), Some("2".into())]);
    assert_eq!(r1, vec![Some("3".into()), None]);
}

#[test]
fn concat_of_nothing_is_empty() {
    let (schema, matrix) = concat_rows(vec![]);
    assert!(schema.is_empty());
    assert!(matrix.is_empty());
}

#[test]
fn swrite_rewrites_header_and_keeps_data() {
    let h = Header {
        names: vec![
            String::from("last_name"),
            String::from("first_name"),
            String::from("selection"),
            String::from("weight"),
        ],
        values: vec![
            String::from("Doe"),
            String::from("Jo"),
            String::from("old"),
            String::from("70"),
        ],
    };
    let data = vec![String::from("r1,r2,r3"), String::from("r4,r5,r6")];
    let (out, kept) = swrite(h, data.clone(), String::from("4.37-15.965"));
    assert_eq!(kept, data);
    let names: Vec<&str> = out.names.iter().map(|s| s.as_str()).collect();
    assert_eq!(names, vec!["selection", "weight"]);
    assert_eq!(out.values[0], "4.37-15.965");
    assert_eq!(out.values[1], "70");
}

#[test]
fn swrite_adds_a_selection_column_when_missing() {
    let h = Header {
        names: vec![String::from("weight")],
        values: vec![String::from("70")],
    };
    let (out, _) = swrite(h, vec![], String::from("1-2"));
    let names: Vec<&str> = out.names.iter().map(|s| s.as_str()).collect();
    assert_eq!(names, vec!["weight", "selection"]);
    assert_eq!(out.values[1], "1-2");
}

#[test]
fn cancellation_aborts_and_discards_results() {
    let st = BatchState {
        results: vec![],
        index: 3,
        total: 5,
    };
    let out = batch_step(st, true, None);
    assert!(out.stop);
    assert_eq!(out.messages.len(), 1);
    match &out.messages[0] {
        Message::Abort(s) => assert_eq!(s, "Stopped!"),
        _ => panic!("expected an abort"),
    }
    assert!(out.state.results.is_empty());
}

#[test]
fn short_metadata_aborts_without_a_result_list() {
    let st = BatchState {
        results: vec![],
        index: 0,
        total: 1,
    };
    let mut info = info_rows("0-0.4");
    info[0].pop();
    let file = FileInput {
        name: String::from("sample.csv"),
        info,
        table: sample_table(),
    };
    let out = batch_step(st, false, Some(file));
    assert!(out.stop);
    assert_eq!(out.messages.len(), 2);
    assert!(matches!(&out.messages[0], Message::Running { done: 1, total: 1, .. }));
    match &out.messages[1] {
        Message::Abort(s) => assert_eq!(s, "info not 12 len"),
        _ => panic!("expected an abort"),
    }
    assert!(!out
        .messages
        .iter()
        .any(|m| matches!(m, Message::Done(_))));
}

#[test]
fn a_good_file_is_analysed_and_the_walk_finishes() {
    let st = BatchState {
        results: vec![],
        index: 0,
        total: 1,
    };
    let file = FileInput {
        name: String::from("sample.csv"),
        info: info_rows("0-0.4"),
        table: sample_table(),
    };
    let out = batch_step(st, false, Some(file));
    assert!(!out.stop);
    assert_eq!(out.messages.len(), 1);
    assert_eq!(out.state.results.len(), 1);
    assert_eq!(out.state.results[0].path, "sample.csv");
    let done = batch_step(out.state, false, None);
    assert!(done.stop);
    match &done.messages[0] {
        Message::Done(list) => assert_eq!(list.len(), 1),
        _ => panic!("expected the result list"),
    }
}

#[test]
fn export_windows_follow_cycle_starts() {
    let gait: Vec<(i64, i64)> = (0..5).map(|k| (k * S, (k + 1) * S)).collect();
    let windows = gaitool::export::export_windows(&gait, &vec![(1, 3)]).unwrap();
    assert_eq!(windows, vec![(S, 3 * S)]);
    assert!(gaitool::export::export_windows(&gait, &vec![(1, 5)]).is_none());
    assert!(gaitool::export::export_windows(&gait, &vec![(3, 1)]).is_none());
}

#[test]
fn mean_gaps_use_the_start_in_window_rule() {
    let iv = vec![(0, 5), (5, 9), (9, 14)];
    let wins = vec![(5, 9)];
    // Only the interval starting at 5 begins inside [5, 9).
    assert_eq!(intervals_starting_in(&iv, &wins), vec![(5, 9)]);
}

#[test]
fn bare_cycles_from_the_table_carry_no_sentinels() {
    let t = sample_table();
    let t = remap_contact(t).unwrap();
    let t = split_support(t).unwrap();
    // One boundary only, so the bare list has no cycle, while the
    // sentinel-bracketed filter list has two.
    let bare = gaitool::pipeline::gait_cycles_of(&t).unwrap();
    assert!(bare.is_empty());
    assert_eq!(cal_gait(&t).unwrap().len(), 2);
}

#[test]
fn every_good_file_contributes_and_the_run_ends_in_done() {
    let st = BatchState {
        results: vec![],
        index: 0,
        total: 2,
    };
    let first = FileInput {
        name: String::from("one.csv"),
        info: info_rows("0-0.4"),
        table: sample_table(),
    };
    let second = FileInput {
        name: String::from("two.csv"),
        info: info_rows("0-0.6"),
        table: sample_table(),
    };
    let step1 = batch_step(st, false, Some(first));
    assert!(!step1.stop);
    assert_eq!(step1.messages.len(), 1);
    let step2 = batch_step(step1.state, false, Some(second));
    assert!(!step2.stop);
    assert_eq!(step2.state.results.len(), 2);
    let done = batch_step(step2.state, false, None);
    match &done.messages[0] {
        Message::Done(list) => {
            assert_eq!(list.len(), 2);
            assert_eq!(list[0].path, "one.csv");
            assert_eq!(list[1].path, "two.csv");
        }
        _ => panic!("expected the result list"),
    }
}
