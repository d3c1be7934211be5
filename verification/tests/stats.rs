use quickreplace::engine::{substitute, ReplacementRequest};
use quickreplace::lines::split_lines;
use quickreplace::stats::{line_count, statistics, word_count, Statistics};
use quickreplace::text::{chars_of, is_whitespace, string_of};

#[test]
fn statistics_scenario() {
    let text = "a b\nc d e\n";
    let result = substitute(&ReplacementRequest {
        pattern: "b".to_string(),
        replacement: "x".to_string(),
        text: text.to_string(),
        case_insensitive: false,
    })
    .unwrap();
    assert_eq!(result.rewritten_text, "a x\nc d e\n");
    assert_eq!(statistics(text), Statistics { line_count: 2, word_count: 5 });
    assert_eq!(statistics(&result.rewritten_text), Statistics { line_count: 2, word_count: 5 });
}

#[test]
fn line_count_of_empty_text_is_zero() {
    assert_eq!(line_count(""), 0);
}

#[test]
fn line_count_counts_unterminated_last_line() {
    assert_eq!(line_count("a"), 1);
    assert_eq!(line_count("a\n"), 1);
    assert_eq!(line_count("a\nb"), 2);
    assert_eq!(line_count("a\nb\n"), 2);
}

#[test]
fn line_count_counts_empty_lines() {
    assert_eq!(line_count("\n"), 1);
    assert_eq!(line_count("\n\n"), 2);
    assert_eq!(line_count("\n\na"), 3);
    assert_eq!(line_count("\r"), 1);
    assert_eq!(line_count("\r\n"), 1);
}

#[test]
fn word_count_splits_on_whitespace_runs() {
    assert_eq!(word_count(""), 0);
    assert_eq!(word_count("   \t\n"), 0);
    assert_eq!(word_count("one"), 1);
    assert_eq!(word_count("  one   two\tthree\nfour  "), 4);
    assert_eq!(word_count("a\u{a0}b\u{2003}c\u{3000}d"), 4);
    assert_eq!(word_count("héllo wörld"), 2);
}

#[test]
fn counts_agree_with_the_standard_library() {
    let samples = [
        "",
        "a",
        "a b\nc d e\n",
        "\n\n\n",
        "no newline at end",
        " leading and trailing \n",
        "windows\r\nline\r\nendings\r\n",
        "lone\rcarriage\rreturns",
        "tabs\tand\u{2028}separators\u{85}here",
        "ünïcödé wörds ärë fïnë\n你好 世界",
        "\r",
        "\r\r\n",
        "x\n\r",
    ];
    for text in samples {
        assert_eq!(line_count(text), text.lines().count(), "lines of {:?}", text);
        assert_eq!(word_count(text), text.split_whitespace().count(), "words of {:?}", text);
    }
}

#[test]
fn lines_agree_with_the_standard_library() {
    let samples = [
        "",
        "a",
        "a\n",
        "a\nb",
        "a\r\nb\r\n",
        "a\rb",
        "a\r",
        "a\r\r\n",
        "\n",
        "\r\n",
        "\n\n",
        "first\n\nthird\n",
        "x\n\r",
        "é\nü\r\n✓",
    ];
    for text in samples {
        let expected: Vec<String> = text.lines().map(|l| l.to_string()).collect();
        assert_eq!(split_lines(text), expected, "lines of {:?}", text);
    }
}

#[test]
fn lines_drop_the_line_endings() {
    assert_eq!(split_lines("one\ntwo\r\nthree"), vec!["one", "two", "three"]);
    assert_eq!(split_lines("keep\r\n\r"), vec!["keep", "\r"]);
    assert_eq!(split_lines(""), Vec::<String>::new());
}

#[test]
fn whitespace_class_is_the_unicode_one() {
    for code in 0..=0x10FFFFu32 {
        if let Some(c) = char::from_u32(code) {
            assert_eq!(is_whitespace(c), c.is_whitespace(), "U+{:04X}", code);
        }
    }
}

#[test]
fn chars_of_decodes_the_text() {
    assert_eq!(chars_of("aé✓"), vec!['a', 'é', '✓']);
    assert_eq!(chars_of(""), Vec::<char>::new());
}

#[test]
fn string_of_builds_the_range() {
    let chars = vec!['a', 'é', '✓', 'z'];
    assert_eq!(string_of(&chars, 1, 3), "é✓");
    assert_eq!(string_of(&chars, 0, 4), "aé✓z");
    assert_eq!(string_of(&chars, 2, 2), "");
}
