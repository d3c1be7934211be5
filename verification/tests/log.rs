use quickreplace::engine::{substitute, MatchRecord, ReplacementRequest};
use quickreplace::log::{format_entry, format_log};
use quickreplace::text::push_decimal;

fn record(offset: usize, matched_text: &str) -> MatchRecord {
    MatchRecord { offset, matched_text: matched_text.to_string() }
}

#[test]
fn log_scenario() {
    let result = substitute(&ReplacementRequest {
        pattern: "o".to_string(),
        replacement: "0".to_string(),
        text: "foo bar".to_string(),
        case_insensitive: false,
    })
    .unwrap();
    assert_eq!(format_log(&result.matches), "Position: 1, Matched: o\nPosition: 2, Matched: o");
}

#[test]
fn log_of_no_match_is_empty() {
    assert_eq!(format_log(&vec![]), "");
}

#[test]
fn log_of_one_match_has_no_line_break() {
    assert_eq!(format_log(&vec![record(0, "x")]), "Position: 0, Matched: x");
}

#[test]
fn log_keeps_the_order_of_the_matches() {
    let records = vec![record(30, "c"), record(10, "a"), record(20, "b")];
    assert_eq!(
        format_log(&records),
        "Position: 30, Matched: c\nPosition: 10, Matched: a\nPosition: 20, Matched: b",
    );
}

#[test]
fn log_agrees_with_formatting_each_record() {
    let records = vec![record(0, ""), record(7, "é ü"), record(1234567, "multi\nline")];
    let expected: Vec<String> = records
        .iter()
        .map(|r| format!("Position: {}, Matched: {}", r.offset, r.matched_text))
        .collect();
    assert_eq!(format_log(&records), expected.join("\n"));
}

#[test]
fn entry_holds_offset_and_text() {
    assert_eq!(format_entry(&record(42, "needle")), "Position: 42, Matched: needle");
    assert_eq!(format_entry(&record(0, "")), "Position: 0, Matched: ");
}

#[test]
fn decimal_numerals_are_exact() {
    for n in [0usize, 1, 9, 10, 11, 99, 100, 101, 909, 1000, 65535, 4294967295, usize::MAX] {
        let mut out = String::from("n=");
        push_decimal(&mut out, n);
        assert_eq!(out, format!("n={}", n));
    }
}
