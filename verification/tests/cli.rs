use quickreplace::cli::{parse_args, Arguments, UsageError};
use quickreplace::review::ReviewMode;

fn args(given: &[&str]) -> Vec<String> {
    given.iter().map(|a| a.to_string()).collect()
}

fn plain() -> Arguments {
    Arguments {
        target: "from".to_string(),
        replacement: "to".to_string(),
        filename: "in.txt".to_string(),
        output: "out.txt".to_string(),
        case_insensitive: false,
        interactive: false,
        preview: false,
        log_file: None,
    }
}

#[test]
fn four_positionals_parse() {
    assert_eq!(parse_args(args(&["from", "to", "in.txt", "out.txt"])), Ok(plain()));
}

#[test]
fn flags_are_recognised_anywhere() {
    let expected = Arguments { case_insensitive: true, interactive: true, preview: true, ..plain() };
    assert_eq!(
        parse_args(args(&[
            "--preview",
            "from",
            "--interactive",
            "to",
            "in.txt",
            "out.txt",
            "--case-insensitive",
        ])),
        Ok(expected),
    );
}

#[test]
fn each_flag_sets_its_own_field() {
    assert_eq!(
        parse_args(args(&["from", "to", "in.txt", "out.txt", "--case-insensitive"])),
        Ok(Arguments { case_insensitive: true, ..plain() }),
    );
    assert_eq!(
        parse_args(args(&["from", "to", "in.txt", "out.txt", "--interactive"])),
        Ok(Arguments { interactive: true, ..plain() }),
    );
    assert_eq!(
        parse_args(args(&["from", "to", "in.txt", "out.txt", "--preview"])),
        Ok(Arguments { preview: true, ..plain() }),
    );
}

#[test]
fn log_file_takes_the_next_argument() {
    assert_eq!(
        parse_args(args(&["from", "--log-file", "changes.log", "to", "in.txt", "out.txt"])),
        Ok(Arguments { log_file: Some("changes.log".to_string()), ..plain() }),
    );
}

#[test]
fn log_file_without_a_value_is_an_error() {
    assert_eq!(
        parse_args(args(&["from", "to", "in.txt", "out.txt", "--log-file"])),
        Err(UsageError::MissingLogFileName),
    );
    assert_eq!(parse_args(args(&["--log-file"])), Err(UsageError::MissingLogFileName));
}

#[test]
fn mode_flags_are_taken_out_before_the_log_file_value() {
    assert_eq!(
        parse_args(args(&["a", "b", "c", "d", "--log-file", "--preview"])),
        Err(UsageError::MissingLogFileName),
    );
    assert_eq!(
        parse_args(args(&["--log-file", "--preview", "a", "b", "c", "d"])),
        Err(UsageError::WrongArgumentCount { got: 3 }),
    );
}

#[test]
fn wrong_number_of_positionals_is_an_error() {
    assert_eq!(parse_args(args(&[])), Err(UsageError::WrongArgumentCount { got: 0 }));
    assert_eq!(
        parse_args(args(&["from", "to", "in.txt"])),
        Err(UsageError::WrongArgumentCount { got: 3 }),
    );
    assert_eq!(
        parse_args(args(&["from", "to", "in.txt", "out.txt", "extra"])),
        Err(UsageError::WrongArgumentCount { got: 5 }),
    );
    assert_eq!(
        parse_args(args(&["--preview", "from", "to", "in.txt", "out.txt", "--log-file", "l", "x"])),
        Err(UsageError::WrongArgumentCount { got: 5 }),
    );
}

#[test]
fn only_the_first_occurrence_of_a_flag_is_taken_out() {
    assert_eq!(
        parse_args(args(&["--preview", "--preview", "to", "in.txt", "out.txt"])),
        Ok(Arguments { target: "--preview".to_string(), preview: true, ..plain() }),
    );
    assert_eq!(
        parse_args(args(&["a", "b", "--log-file", "one", "--log-file", "two"])),
        Ok(Arguments {
            target: "a".to_string(),
            replacement: "b".to_string(),
            filename: "--log-file".to_string(),
            output: "two".to_string(),
            log_file: Some("one".to_string()),
            ..plain()
        }),
    );
}

#[test]
fn unknown_options_are_positionals() {
    assert_eq!(
        parse_args(args(&["--verbose", "to", "in.txt", "out.txt"])),
        Ok(Arguments { target: "--verbose".to_string(), ..plain() }),
    );
}

#[test]
fn usage_messages() {
    assert_eq!(UsageError::MissingLogFileName.message(), "Missing file name after --log-file");
    assert_eq!(
        UsageError::WrongArgumentCount { got: 3 }.message(),
        "Wrong number of arguments: expected 4, got 3.",
    );
    assert_eq!(
        UsageError::WrongArgumentCount { got: 12 }.message(),
        "Wrong number of arguments: expected 4, got 12.",
    );
}

#[test]
fn preview_wins_over_interactive() {
    assert_eq!(plain().review_mode(), ReviewMode::Direct);
    assert_eq!(Arguments { interactive: true, ..plain() }.review_mode(), ReviewMode::Interactive);
    assert_eq!(Arguments { preview: true, ..plain() }.review_mode(), ReviewMode::Preview);
    assert_eq!(
        Arguments { preview: true, interactive: true, ..plain() }.review_mode(),
        ReviewMode::Preview,
    );
}

#[test]
fn request_takes_over_pattern_and_replacement() {
    let arguments = Arguments { case_insensitive: true, ..plain() };
    let request = arguments.request("some text".to_string());
    assert_eq!(request.pattern, "from");
    assert_eq!(request.replacement, "to");
    assert_eq!(request.text, "some text");
    assert!(request.case_insensitive);
}
