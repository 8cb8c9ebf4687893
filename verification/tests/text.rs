//! Decimal parsing and formatting, string splitting, path helpers and
//! column labels on concrete values.

use gaitool::config::{Position, Variable};
use gaitool::header::{check_header_columns, parse_stem_tokens, posture_key};
use gaitool::paths::{get_file_name, get_file_stem, join_path, parse_range_tuple};
use gaitool::strutil::{find_char, split_str, str_eq};
use gaitool::ticks::{format_tick, parse_decimal, parse_u32};

#[test]
fn parse_plain_decimals() {
    assert_eq!(parse_decimal("4.37"), Some(4_370_000));
    assert_eq!(parse_decimal("15.965"), Some(15_965_000));
    assert_eq!(parse_decimal("0"), Some(0));
    assert_eq!(parse_decimal("12"), Some(12_000_000));
    assert_eq!(parse_decimal("0.000001"), Some(1));
}

#[test]
fn parse_signed_decimals() {
    assert_eq!(parse_decimal("-0.5"), Some(-500_000));
    assert_eq!(parse_decimal("+2.25"), Some(2_250_000));
    assert_eq!(parse_decimal("-12"), Some(-12_000_000));
}

#[test]
fn parse_dot_edge_forms() {
    assert_eq!(parse_decimal(".5"), Some(500_000));
    assert_eq!(parse_decimal("5."), Some(5_000_000));
    assert_eq!(parse_decimal("."), None);
    assert_eq!(parse_decimal(""), None);
}

#[test]
fn parse_rejects_non_decimals() {
    assert_eq!(parse_decimal("1e3"), None);
    assert_eq!(parse_decimal("abc"), None);
    assert_eq!(parse_decimal("1.2.3"), None);
    assert_eq!(parse_decimal("1 2"), None);
    assert_eq!(parse_decimal("NaN"), None);
    assert_eq!(parse_decimal("inf"), None);
}

#[test]
fn parse_truncates_excess_fraction_digits() {
    assert_eq!(parse_decimal("1.23456789"), Some(1_234_567));
}

#[test]
fn parse_rejects_oversized_whole_part() {
    assert_eq!(parse_decimal("2000000000001"), None);
    assert_eq!(parse_decimal("2000000000000"), Some(2_000_000_000_000_000_000));
}

#[test]
fn format_trims_trailing_zeros() {
    assert_eq!(format_tick(4_370_000), "4.37");
    assert_eq!(format_tick(15_965_000), "15.965");
    assert_eq!(format_tick(600_000), "0.6");
    assert_eq!(format_tick(2_000_000), "2");
    assert_eq!(format_tick(0), "0");
    assert_eq!(format_tick(-500_000), "-0.5");
    assert_eq!(format_tick(1), "0.000001");
}

#[test]
fn format_round_trips_parsed_values() {
    for s in ["4.37", "0.1", "25.375", "-3.5", "0"] {
        let t = parse_decimal(s).unwrap();
        assert_eq!(format_tick(t), s);
    }
}

#[test]
fn parse_u32_digits_only() {
    assert_eq!(parse_u32("12"), Some(12));
    assert_eq!(parse_u32("0"), Some(0));
    assert_eq!(parse_u32(""), None);
    assert_eq!(parse_u32("1.5"), None);
    assert_eq!(parse_u32("4294967295"), Some(u32::MAX));
    assert_eq!(parse_u32("4294967296"), None);
}

#[test]
fn split_keeps_empty_pieces() {
    let parts = split_str("a-b--c", '-');
    let views: Vec<&str> = parts.iter().map(|s| s.as_str()).collect();
    assert_eq!(views, vec!["a", "b", "", "c"]);
    let one = split_str("abc", '-');
    assert_eq!(one.len(), 1);
    assert_eq!(one[0], "abc");
}

#[test]
fn find_char_first_occurrence() {
    assert_eq!(find_char("a-b-c", 0, '-'), Some(1));
    assert_eq!(find_char("a-b-c", 2, '-'), Some(3));
    assert_eq!(find_char("abc", 0, '-'), None);
}

#[test]
fn str_eq_compares_characters() {
    assert!(str_eq("time", "time"));
    assert!(!str_eq("time", "Time"));
    assert!(!str_eq("time", "times"));
}

#[test]
fn file_name_and_stem() {
    assert_eq!(get_file_name("file/raw/sample-1.csv"), "sample-1.csv");
    assert_eq!(get_file_name("sample-1.csv"), "sample-1.csv");
    assert_eq!(get_file_stem("file/raw/sample-1.csv"), "sample-1");
    assert_eq!(get_file_stem("noext"), "noext");
}

#[test]
fn join_path_inserts_one_slash() {
    assert_eq!(join_path("out", "a.csv"), "out/a.csv");
    assert_eq!(join_path("out/", "a.csv"), "out/a.csv");
    assert_eq!(join_path("", "a.csv"), "a.csv");
}

#[test]
fn range_tuple_two_indices() {
    assert_eq!(parse_range_tuple("1 12"), Some((1, 12)));
    assert_eq!(parse_range_tuple("15 22"), Some((15, 22)));
    assert_eq!(parse_range_tuple("15"), None);
    assert_eq!(parse_range_tuple("a b"), None);
}

#[test]
fn position_labels() {
    assert_eq!(Position::to_str(&Position::L), "L");
    assert_eq!(Position::to_str(&Position::HipLT), "HIP LT");
    assert_eq!(Position::to_str(&Position::FootRT), "Foot RT");
    assert_eq!(Position::iterator().len(), 16);
    assert_eq!(Variable::iterator().len(), 9);
}

#[test]
fn column_labels_follow_the_naming_rule() {
    assert_eq!(
        Variable::to_name_string(&Variable::AccelX, &Position::L),
        "L Accel Sensor X (mG)"
    );
    assert_eq!(
        Variable::to_name_string(&Variable::AccelZ, &Position::ScapularRT),
        "Scapular Accel Sensor Z RT (mG)"
    );
    assert_eq!(
        Variable::to_name_string(&Variable::Course, &Position::L),
        "Noraxon MyoMotion-Segments-L-Course (deg)"
    );
    assert_eq!(
        Variable::to_name_string(&Variable::Pitch, &Position::T),
        "T pitch (deg)"
    );
    assert_eq!(
        Variable::to_name_string(&Variable::Roll, &Position::KneeLT),
        "Knee roll LT (deg)"
    );
    assert_eq!(
        Variable::to_name_string(&Variable::MagnetY, &Position::FootRT),
        "Noraxon MyoMotion-Segments-Foot RT-Magnetometer-y (mGauss)"
    );
}

#[test]
fn stem_tokens_need_one_underscore_and_eleven_pieces() {
    let tokens = parse_stem_tokens("2022-11-02-17-00_101-8-1-1-[1]-1").unwrap();
    let views: Vec<&str> = tokens.iter().map(|s| s.as_str()).collect();
    assert_eq!(
        views,
        vec!["2022", "11", "02", "17", "00", "101", "8", "1", "1", "[1]", "1"]
    );
    assert!(parse_stem_tokens("nounderscore").is_none());
    assert!(parse_stem_tokens("a_b").is_none());
    assert!(parse_stem_tokens("a_b_c").is_none());
}

#[test]
fn posture_keys_count_labels_one_and_two() {
    let tokens = parse_stem_tokens("2022-11-02-17-00_101-8-1-1-[1]-1").unwrap();
    assert_eq!(posture_key(&tokens).unwrap(), "101-1");
    let other = parse_stem_tokens("2022-11-02-17-00_202-8-2-2-[1]-1").unwrap();
    assert_eq!(posture_key(&other).unwrap(), "202-2");
    let none = parse_stem_tokens("2022-11-02-17-00_303-8-3-3-[1]-1").unwrap();
    assert!(posture_key(&none).is_none());
}

#[test]
fn header_findings_name_leftovers_and_missing_selection() {
    let names = vec![
        String::from("last_name"),
        String::from("first_name"),
        String::from("weight"),
    ];
    let findings = check_header_columns(&names);
    let views: Vec<&str> = findings.iter().map(|s| s.as_str()).collect();
    assert_eq!(
        views,
        vec!["found: last_name", "found: first_name", "not found: selection"]
    );
    let clean = vec![String::from("selection"), String::from("weight")];
    assert!(check_header_columns(&clean).is_empty());
}
