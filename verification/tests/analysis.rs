//! Contact decoding, support classification, edge detection, gait
//! cycles, quantiles, validity filtering and the selector on concrete
//! recordings.

use gaitool::aggregate::{gap_quantile, gap_stats, get_min_max_quantile, interval_gaps};
use gaitool::edges::{db_intervals, edge_times, support_intervals};
use gaitool::errors::AnalysisError;
use gaitool::gait::{adjacent_pairs, every_other, gait_cycles, gait_with_sentinels};
use gaitool::quantile::{quantile5, sort_ticks, Quantile};
use gaitool::selection::{in_selection, valid_cycles};
use gaitool::selector::split_selection;
use gaitool::support::{classify_support, decode_contact};

const S: i64 = 1_000_000;

fn s1_times() -> Vec<i64> {
    vec![0, S / 10, 2 * S / 10, 3 * S / 10, 4 * S / 10, 5 * S / 10, 6 * S / 10]
}

fn s1_lt() -> Vec<i64> {
    vec![1000, 1000, 0, 0, 1000, 1000, 0]
}

fn s1_rt() -> Vec<i64> {
    vec![1000, 0, 0, 1000, 1000, 0, 0]
}

#[test]
fn contact_codes_decode_strictly() {
    let decoded = decode_contact(&vec![1000, 999, 1001, 0, -1000, 1000]);
    assert_eq!(decoded, vec![true, false, false, false, false, true]);
}

#[test]
fn s1_double_support_channel() {
    let lt = decode_contact(&s1_lt());
    let rt = decode_contact(&s1_rt());
    assert_eq!(lt, vec![true, true, false, false, true, true, false]);
    assert_eq!(rt, vec![true, false, false, true, true, false, false]);
    let ch = classify_support(&lt, &rt);
    assert_eq!(ch.db, vec![true, false, false, false, true, false, false]);
}

#[test]
fn support_phases_are_disjoint_and_exhaustive() {
    let lt = decode_contact(&s1_lt());
    let rt = decode_contact(&s1_rt());
    let ch = classify_support(&lt, &rt);
    for i in 0..lt.len() {
        assert!(!(ch.db[i] && ch.sg[i]));
        assert!(ch.db[i] || ch.sg[i]);
        if ch.lt_sg[i] {
            assert!(lt[i] && !rt[i]);
        }
        if ch.rt_sg[i] {
            assert!(rt[i] && !lt[i]);
        }
    }
}

#[test]
fn edge_rows_drop_the_first_sample() {
    let t: Vec<i64> = (0..7).map(|i| i * S).collect();
    let c = vec![true, false, false, false, true, false, false];
    let (starts, ends) = edge_times(&t, &c);
    assert_eq!(starts, vec![4 * S]);
    assert_eq!(ends, vec![S, 5 * S]);
}

#[test]
fn starts_precede_ends_when_channel_begins_off() {
    let t: Vec<i64> = (0..7).map(|i| i * S).collect();
    let c = vec![false, true, false, true, true, false, true];
    let (starts, ends) = edge_times(&t, &c);
    assert_eq!(starts, vec![S, 3 * S, 6 * S]);
    assert_eq!(ends, vec![2 * S, 5 * S]);
    for i in 0..ends.len() {
        assert!(starts[i] < ends[i]);
    }
}

#[test]
fn single_support_pairing_drops_first_and_last_edge() {
    let t: Vec<i64> = (0..7).map(|i| i * S).collect();
    let c = vec![false, true, false, true, false, true, false];
    // Edges at every sample from the second on.
    let pairs = support_intervals(&t, &c);
    assert_eq!(pairs, vec![(2 * S, 3 * S), (4 * S, 5 * S)]);
    for w in pairs.windows(2) {
        assert!(w[0].1 < w[1].0);
    }
}

#[test]
fn double_support_pairing_joins_next_end() {
    let t: Vec<i64> = (0..5).map(|i| i * S).collect();
    let c = vec![true, false, true, false, true];
    let pairs = db_intervals(&t, &c);
    assert_eq!(pairs, vec![(2 * S, 3 * S)]);
}

#[test]
fn every_other_keeps_even_offsets() {
    assert_eq!(every_other(&vec![1, 2, 3, 4, 5]), vec![1, 3, 5]);
    assert_eq!(every_other(&vec![1, 2, 3, 4]), vec![1, 3]);
    assert_eq!(every_other(&vec![]), Vec::<i64>::new());
}

#[test]
fn cycles_chain_end_to_start() {
    let pairs = adjacent_pairs(&vec![0, 4 * S, 6 * S]);
    assert_eq!(pairs, vec![(0, 4 * S), (4 * S, 6 * S)]);
    for w in pairs.windows(2) {
        assert_eq!(w[0].1, w[1].0);
    }
}

#[test]
fn s1_gait_boundaries_with_sentinels() {
    let t = s1_times();
    let lt = decode_contact(&s1_lt());
    let rt = decode_contact(&s1_rt());
    let db: Vec<bool> = lt.iter().zip(rt.iter()).map(|(a, b)| *a && *b).collect();
    let (bounds, cycles) = gait_cycles(&t, &db);
    assert_eq!(bounds, vec![4 * S / 10]);
    assert!(cycles.is_empty());
    let full = gait_with_sentinels(&t, &db);
    assert_eq!(full, vec![(0, 4 * S / 10), (4 * S / 10, 6 * S / 10)]);
}

#[test]
fn s1_one_valid_cycle_with_mean_gap() {
    let t = s1_times();
    let lt = decode_contact(&s1_lt());
    let rt = decode_contact(&s1_rt());
    let db: Vec<bool> = lt.iter().zip(rt.iter()).map(|(a, b)| *a && *b).collect();
    let full = gait_with_sentinels(&t, &db);
    let sels = vec![(0, 4 * S / 10)];
    let kept = valid_cycles(&full, &sels);
    assert_eq!(kept, vec![(0, 4 * S / 10)]);
    let stats = gap_stats(&kept);
    assert_eq!(stats.sum, (4 * S / 10) as i128);
    assert_eq!(stats.count, 1);
}

#[test]
fn validity_filter_needs_a_covering_window() {
    let cycles = vec![(0, 2), (2, 5), (5, 9)];
    let sels = vec![(1, 6)];
    let kept = valid_cycles(&cycles, &sels);
    assert_eq!(kept, vec![(2, 5)]);
    for &(s, e) in kept.iter() {
        assert!(sels.iter().any(|&(a, b)| a <= s && e <= b));
    }
    assert!(in_selection((2, 5), &sels));
    assert!(!in_selection((0, 2), &sels));
}

#[test]
fn sorting_is_stable_under_permutation() {
    assert_eq!(sort_ticks(&vec![3, 1, 2]), vec![1, 2, 3]);
    assert_eq!(sort_ticks(&vec![5, 5, 1]), vec![1, 5, 5]);
    assert_eq!(sort_ticks(&vec![]), Vec::<i64>::new());
}

#[test]
fn quantile5_of_one_to_ten() {
    let v: Vec<i64> = (1..=10).collect();
    let q = quantile5(&v).unwrap();
    assert_eq!(q.min, 1);
    assert_eq!(q.q1, 3);
    assert_eq!(q.med_lo, 5);
    assert_eq!(q.med_hi, 6);
    assert_eq!(q.q3, 8);
    assert_eq!(q.max, 10);
}

#[test]
fn quantile5_is_monotonic() {
    for v in [vec![7], vec![9, 1], vec![4, 4, 4], vec![10, -3, 5, 0, 2, 2, 8]] {
        let q = quantile5(&v).unwrap();
        assert!(q.min <= q.q1);
        assert!(q.q1 <= q.med_lo);
        assert!(q.med_lo <= q.med_hi);
        assert!(q.med_hi <= q.q3);
        assert!(q.q3 <= q.max);
    }
}

#[test]
fn quantile5_rejects_empty_input() {
    assert_eq!(quantile5(&vec![]), Err(AnalysisError::EmptyInput));
}

#[test]
fn quantile_accessors_return_fields() {
    let q = Quantile::new(1, 2, 3, 4, 5, 6);
    assert_eq!(q.to_tuple(), (1, 2, 3, 4, 5, 6));
    assert_eq!(q.min(), 1);
    assert_eq!(q.max(), 6);
}

#[test]
fn interval_gaps_and_quantile() {
    let iv = vec![(0, 3), (3, 7), (10, 12)];
    assert_eq!(interval_gaps(&iv), vec![3, 4, 2]);
    let q = gap_quantile(&iv).unwrap();
    assert_eq!(q.min, 2);
    assert_eq!(q.max, 4);
    assert!(gap_quantile(&vec![]).is_none());
}

#[test]
fn window_extrema_skip_empty_cycles() {
    let time: Vec<i64> = (0..6).collect();
    let vals = vec![5, 1, 7, 2, 9, 0];
    let cycles = vec![(0, 3), (3, 5), (100, 200)];
    let (min_q, max_q) = get_min_max_quantile(&vals, &time, &cycles);
    // Per-cycle minima [1, 2], maxima [7, 9]; the far window holds no samples.
    let min_q = min_q.unwrap();
    let max_q = max_q.unwrap();
    assert_eq!(min_q.min, 1);
    assert_eq!(min_q.max, 2);
    assert_eq!(max_q.min, 7);
    assert_eq!(max_q.max, 9);
}

#[test]
fn window_extrema_of_no_cycles_is_missing() {
    let time: Vec<i64> = (0..3).collect();
    let vals = vec![1, 2, 3];
    let (min_q, max_q) = get_min_max_quantile(&vals, &time, &vec![]);
    assert!(min_q.is_none());
    assert!(max_q.is_none());
}

#[test]
fn selector_posture_two_takes_one_centred_window() {
    // Ten chained cycles (0,1), (1,2), ... (9,10), in whole ticks.
    let g: Vec<(i64, i64)> = (0..10).map(|k| (k * S, (k + 1) * S)).collect();
    let sel = split_selection(&g, "2", 50).unwrap();
    assert_eq!(sel, "3-8");
}

#[test]
fn selector_posture_one_takes_two_windows_with_one_space() {
    let g: Vec<(i64, i64)> = (0..10).map(|k| (k * S, (k + 1) * S)).collect();
    let sel = split_selection(&g, "1", 40).unwrap();
    assert_eq!(sel, "1-3 7-9");
    assert_eq!(sel.matches(' ').count(), 1);
}

#[test]
fn selector_other_posture_yields_empty_selection() {
    let g: Vec<(i64, i64)> = (0..4).map(|k| (k * S, (k + 1) * S)).collect();
    assert_eq!(split_selection(&g, "3", 50).unwrap(), "");
}

#[test]
fn selector_zero_window_collapses_to_centre() {
    let g: Vec<(i64, i64)> = (0..10).map(|k| (k * S, (k + 1) * S)).collect();
    let sel = split_selection(&g, "2", 5).unwrap();
    assert_eq!(sel, "5-5");
}

#[test]
fn selector_with_no_cycles_selects_nothing() {
    let g: Vec<(i64, i64)> = vec![];
    assert!(split_selection(&g, "2", 50).is_none());
    assert!(split_selection(&g, "1", 50).is_none());
}

#[test]
fn edge_lists_of_a_flat_channel_are_empty() {
    let t: Vec<i64> = (0..4).map(|i| i * S).collect();
    let (starts, ends) = edge_times(&t, &vec![true; 4]);
    assert!(starts.is_empty());
    assert!(ends.is_empty());
    assert!(support_intervals(&t, &vec![false; 4]).is_empty());
    assert!(db_intervals(&t, &vec![true; 4]).is_empty());
}
