use quickreplace::engine::{
    apply_spans, splice, substitute, MatchRecord, ReplacementRequest, SubstitutionResult,
};
use regex::Regex;

fn request(pattern: &str, replacement: &str, text: &str, case_insensitive: bool) -> ReplacementRequest {
    ReplacementRequest {
        pattern: pattern.to_string(),
        replacement: replacement.to_string(),
        text: text.to_string(),
        case_insensitive,
    }
}

fn record(offset: usize, matched_text: &str) -> MatchRecord {
    MatchRecord { offset, matched_text: matched_text.to_string() }
}

fn run(pattern: &str, replacement: &str, text: &str, case_insensitive: bool) -> SubstitutionResult {
    substitute(&request(pattern, replacement, text, case_insensitive)).unwrap()
}

#[test]
fn case_insensitive_flag_matches_both_cases() {
    let result = run("abc", "X", "ABC abc", true);
    assert_eq!(result.rewritten_text, "X X");
    assert_eq!(result.matches, vec![record(0, "ABC"), record(4, "abc")]);
}

#[test]
fn case_sensitive_matches_exact_case_only() {
    let result = run("abc", "X", "ABC abc", false);
    assert_eq!(result.rewritten_text, "ABC X");
    assert_eq!(result.matches, vec![record(4, "abc")]);
}

#[test]
fn no_match_leaves_text_unchanged() {
    let result = run("zzz", "X", "foo bar\nbaz", false);
    assert_eq!(result.rewritten_text, "foo bar\nbaz");
    assert!(result.matches.is_empty());
}

#[test]
fn empty_text_has_no_match() {
    let result = run("a", "b", "", false);
    assert_eq!(result.rewritten_text, "");
    assert!(result.matches.is_empty());
}

#[test]
fn every_match_is_replaced_and_recorded() {
    let result = run("o", "0", "foo bar", false);
    assert_eq!(result.rewritten_text, "f00 bar");
    assert_eq!(result.matches, vec![record(1, "o"), record(2, "o")]);
}

#[test]
fn pattern_language_is_honoured() {
    let result = run(r"\d+", "#", "a1b22c333", false);
    assert_eq!(result.rewritten_text, "a#b#c#");
    assert_eq!(result.matches, vec![record(1, "1"), record(3, "22"), record(6, "333")]);
}

#[test]
fn replacement_is_taken_literally() {
    let result = run("(a)(b)", "$2$1", "ab ab", false);
    assert_eq!(result.rewritten_text, "$2$1 $2$1");
    assert_eq!(result.matches.len(), 2);
}

#[test]
fn replacement_keeps_its_own_case() {
    let result = run("x", "MiXeD", "x X", true);
    assert_eq!(result.rewritten_text, "MiXeD MiXeD");
}

#[test]
fn offsets_are_byte_offsets() {
    let text = "αβγ é αβ";
    let result = run("é|β", "_", text, false);
    assert_eq!(result.rewritten_text, "α_γ _ α_");
    assert_eq!(result.matches, vec![record(2, "β"), record(7, "é"), record(12, "β")]);
}

#[test]
fn offsets_point_at_the_matched_text() {
    let text = "Grüße, grüße; GRÜSSE. 你好 grüße";
    let result = run("grüße|你", "*", text, true);
    assert!(!result.matches.is_empty());
    for m in &result.matches {
        assert_eq!(&text[m.offset..m.offset + m.matched_text.len()], m.matched_text);
    }
}

#[test]
fn offsets_increase() {
    let result = run("[aeiou]", "", "the quick brown fox jumps over the lazy dog", false);
    assert_eq!(result.matches.len(), 11);
    for pair in result.matches.windows(2) {
        assert!(pair[0].offset + pair[0].matched_text.len() <= pair[1].offset);
    }
}

#[test]
fn record_count_equals_rescan_count() {
    let text = "one two three two one two";
    let result = run("two", "2", text, false);
    let rescanned = Regex::new("two").unwrap().find_iter(text).count();
    assert_eq!(result.matches.len(), rescanned);
    assert_eq!(result.matches.len(), 3);
    assert_eq!(result.rewritten_text.len(), text.len() - 3 * 3 + 3 * 1);
}

#[test]
fn zero_length_matches_advance() {
    let result = run("", "-", "ab", false);
    assert_eq!(result.rewritten_text, "-a-b-");
    assert_eq!(result.matches, vec![record(0, ""), record(1, ""), record(2, "")]);
}

#[test]
fn zero_length_matches_respect_characters() {
    let result = run("", "-", "éa", false);
    assert_eq!(result.rewritten_text, "-é-a-");
    assert_eq!(result.matches, vec![record(0, ""), record(2, ""), record(3, "")]);
}

#[test]
fn optional_pattern_mixes_empty_and_full_matches() {
    let result = run("a*", "X", "baaac", false);
    assert_eq!(result.rewritten_text, "XbXcX");
    assert_eq!(result.matches, vec![record(0, ""), record(1, "aaa"), record(5, "")]);
}

#[test]
fn agrees_with_the_pattern_library() {
    let cases = [
        ("o", "0", "foo bar"),
        ("a*", "X", "baaac"),
        (r"\b", "|", "hi there"),
        (r"\s+", " ", "a  b\t\tc\n\nd"),
        ("(?m)^", "> ", "x\ny\nz"),
        ("ß", "ss", "Straße"),
        (".", "..", "añ"),
    ];
    for (pattern, replacement, text) in cases {
        let expected = Regex::new(pattern)
            .unwrap()
            .replace_all(text, regex::NoExpand(replacement))
            .to_string();
        let result = run(pattern, replacement, text, false);
        assert_eq!(result.rewritten_text, expected, "pattern {:?}", pattern);
    }
}

#[test]
fn invalid_pattern_is_an_error() {
    assert!(substitute(&request("foo(bar", "x", "foo(bar", false)).is_err());
    assert!(substitute(&request("[a-", "x", "text", false)).is_err());
    assert!(substitute(&request(r"\", "x", "text", true)).is_err());
}

#[test]
fn oversized_pattern_is_an_error() {
    assert!(substitute(&request(r"\w{1000}", "x", "text", false)).is_err());
}

#[test]
fn pattern_error_carries_the_cause() {
    let error = substitute(&request("a(", "x", "", false)).unwrap_err();
    assert_eq!(error.cause, Regex::new("a(").unwrap_err());
}

#[test]
fn case_insensitive_pattern_errors_name_the_prefixed_pattern() {
    let error = substitute(&request("a(", "x", "", true)).unwrap_err();
    assert_eq!(error.cause, Regex::new("(?i)a(").unwrap_err());
}

#[test]
fn splice_replaces_given_spans() {
    let result = splice("hello world", &vec![(0, 5), (6, 11)], "X");
    assert_eq!(result.rewritten_text, "X X");
    assert_eq!(result.matches, vec![record(0, "hello"), record(6, "world")]);
}

#[test]
fn apply_spans_replaces_given_spans() {
    let result = apply_spans("hello world", &vec![(2, 4), (4, 4), (9, 11)], "--").unwrap();
    assert_eq!(result.rewritten_text, "he----o wor--");
    assert_eq!(result.matches, vec![record(2, "ll"), record(4, ""), record(9, "ld")]);
}

#[test]
fn apply_spans_without_spans_returns_the_text() {
    let result = apply_spans("unchanged ✓", &vec![], "never used").unwrap();
    assert_eq!(result.rewritten_text, "unchanged ✓");
    assert!(result.matches.is_empty());
}

#[test]
fn apply_spans_refuses_spans_out_of_order() {
    assert!(apply_spans("hello world", &vec![(6, 11), (0, 5)], "X").is_none());
}

#[test]
fn apply_spans_refuses_overlapping_spans() {
    assert!(apply_spans("hello world", &vec![(0, 5), (4, 8)], "X").is_none());
}

#[test]
fn apply_spans_refuses_reversed_span() {
    assert!(apply_spans("hello world", &vec![(5, 3)], "X").is_none());
}

#[test]
fn apply_spans_refuses_span_past_the_end() {
    assert!(apply_spans("hello", &vec![(3, 6)], "X").is_none());
    assert!(apply_spans("hello", &vec![(6, 6)], "X").is_none());
    assert!(apply_spans("hello", &vec![(5, 5)], "X").is_some());
}

#[test]
fn apply_spans_refuses_span_inside_a_character() {
    assert!(apply_spans("é", &vec![(0, 1)], "X").is_none());
    assert!(apply_spans("é", &vec![(1, 2)], "X").is_none());
    assert_eq!(apply_spans("é", &vec![(0, 2)], "X").unwrap().rewritten_text, "X");
}
