//! Command-line arguments: four positional values and the option flags.
//!
//! Parsing works on the argument list as plain strings; reading the process
//! arguments and reporting a usage error are left to the caller.

use crate::engine::ReplacementRequest;
use crate::review::ReviewMode;
use crate::text::{decimal, push_decimal, views};
use vstd::prelude::*;
use vstd::string::StringExecFns;

verus! {

/// Flag that turns on case-insensitive matching.
pub const CASE_INSENSITIVE_FLAG: &'static str = "--case-insensitive";

/// Flag that asks for line-by-line confirmation.
pub const INTERACTIVE_FLAG: &'static str = "--interactive";

/// Flag that asks for a preview instead of writing the output.
pub const PREVIEW_FLAG: &'static str = "--preview";

/// Flag that is followed by the path of the change log.
pub const LOG_FILE_FLAG: &'static str = "--log-file";

/// Number of positional arguments: target, replacement, input and output.
pub const POSITIONAL_COUNT: usize = 4;

/// A complete, well-formed invocation.
#[derive(Debug, Clone, PartialEq, Eq)]
pub struct Arguments {
    pub target: String,
    pub replacement: String,
    pub filename: String,
    pub output: String,
    pub case_insensitive: bool,
    pub interactive: bool,
    pub preview: bool,
    pub log_file: Option<String>,
}

/// The mathematical content of [`Arguments`].
pub struct ArgumentsView {
    pub target: Seq<char>,
    pub replacement: Seq<char>,
    pub filename: Seq<char>,
    pub output: Seq<char>,
    pub case_insensitive: bool,
    pub interactive: bool,
    pub preview: bool,
    pub log_file: Option<Seq<char>>,
}

impl View for Arguments {
    type V = ArgumentsView;

    open spec fn view(&self) -> ArgumentsView {
        ArgumentsView {
            target: self.target@,
            replacement: self.replacement@,
            filename: self.filename@,
            output: self.output@,
            case_insensitive: self.case_insensitive,
            interactive: self.interactive,
            preview: self.preview,
            log_file: match self.log_file {
                Some(path) => Some(path@),
                None => None,
            },
        }
    }
}

/// Why an argument list is not a complete invocation.
#[derive(Debug, Clone, Copy, PartialEq, Eq, Structural)]
pub enum UsageError {
    /// `--log-file` is the last argument, with no path after it.
    MissingLogFileName,
    /// After the options are taken out, the number of arguments left is not four.
    WrongArgumentCount { got: usize },
}

/// The sentence for a `--log-file` without a path.
pub const MISSING_LOG_FILE_MESSAGE: &'static str = "Missing file name after --log-file";

/// The sentence for a wrong number of arguments, up to the number found.
pub const WRONG_COUNT_MESSAGE: &'static str = "Wrong number of arguments: expected 4, got ";

/// What closes the sentence after the number found.
pub const WRONG_COUNT_MESSAGE_END: &'static str = ".";

/// The sentence that reports a usage error.
pub open spec fn usage_message(error: UsageError) -> Seq<char> {
    match error {
        UsageError::MissingLogFileName => MISSING_LOG_FILE_MESSAGE@,
        UsageError::WrongArgumentCount { got } => WRONG_COUNT_MESSAGE@ + decimal(got as nat)
            + WRONG_COUNT_MESSAGE_END@,
    }
}

/// The review mode that the flags select: a preview where one is asked for,
/// whatever else is; otherwise interactive review where that is asked for;
/// otherwise direct.
pub open spec fn mode_of(preview: bool, interactive: bool) -> ReviewMode {
    if preview {
        ReviewMode::Preview
    } else if interactive {
        ReviewMode::Interactive
    } else {
        ReviewMode::Direct
    }
}

impl UsageError {
    /// The sentence that reports this error.
    pub fn message(&self) -> (r: String)
        ensures
            r@ == usage_message(*self),
    {
        match self {
            UsageError::MissingLogFileName => String::from_str(MISSING_LOG_FILE_MESSAGE),
            UsageError::WrongArgumentCount { got } => {
                let mut out = String::from_str(WRONG_COUNT_MESSAGE);
                push_decimal(&mut out, *got);
                out.append(WRONG_COUNT_MESSAGE_END);
                out
            },
        }
    }
}

impl Arguments {
    /// The review mode that these arguments select.
    pub fn review_mode(&self) -> (mode: ReviewMode)
        ensures
            mode == mode_of(self.preview, self.interactive),
    {
        if self.preview {
            ReviewMode::Preview
        } else if self.interactive {
            ReviewMode::Interactive
        } else {
            ReviewMode::Direct
        }
    }

    /// The replacement that these arguments ask for in `text`.
    pub fn request(&self, text: String) -> (r: ReplacementRequest)
        ensures
            r.pattern@ == self.target@,
            r.replacement@ == self.replacement@,
            r.text@ == text@,
            r.case_insensitive == self.case_insensitive,
    {
        ReplacementRequest {
            pattern: self.target.clone(),
            replacement: self.replacement.clone(),
            text,
            case_insensitive: self.case_insensitive,
        }
    }
}

/// The four positional values in `rest`, with the options found before.
pub open spec fn with_positionals(
    rest: Seq<Seq<char>>,
    case_insensitive: bool,
    interactive: bool,
    preview: bool,
    log_file: Option<Seq<char>>,
) -> Result<ArgumentsView, UsageError> {
    if rest.len() == POSITIONAL_COUNT {
        Ok(
            ArgumentsView {
                target: rest[0],
                replacement: rest[1],
                filename: rest[2],
                output: rest[3],
                case_insensitive,
                interactive,
                preview,
                log_file,
            },
        )
    } else {
        Err(UsageError::WrongArgumentCount { got: rest.len() as usize })
    }
}

/// What an argument list means.
///
/// Each of the three mode flags is recognised anywhere in the list and its
/// first occurrence is taken out. Then the first `--log-file` is taken out
/// together with the argument that follows it, which is the log path. What
/// is left must be exactly the four positional values.
pub open spec fn parsed(args: Seq<Seq<char>>) -> Result<ArgumentsView, UsageError> {
    let case_insensitive = args.contains(CASE_INSENSITIVE_FLAG@);
    let interactive = args.contains(INTERACTIVE_FLAG@);
    let preview = args.contains(PREVIEW_FLAG@);
    let rest = args.remove_value(CASE_INSENSITIVE_FLAG@).remove_value(
        INTERACTIVE_FLAG@,
    ).remove_value(PREVIEW_FLAG@);
    match rest.index_of_first(LOG_FILE_FLAG@) {
        Some(i) => if i + 1 < rest.len() {
            with_positionals(
                rest.remove(i).remove(i),
                case_insensitive,
                interactive,
                preview,
                Some(rest[i + 1]),
            )
        } else {
            Err(UsageError::MissingLogFileName)
        },
        None => with_positionals(rest, case_insensitive, interactive, preview, None),
    }
}

/// The outcome of parsing, with the arguments replaced by their view.
pub open spec fn outcome_view(r: Result<Arguments, UsageError>) -> Result<
    ArgumentsView,
    UsageError,
> {
    match r {
        Ok(a) => Ok(a@),
        Err(e) => Err(e),
    }
}

/// Index of the first argument equal to `flag`.
fn position(args: &Vec<String>, flag: &str) -> (r: Option<usize>)
    ensures
        match r {
            Some(i) => views(args@).index_of_first(flag@) == Some(i as int) && i < args.len(),
            None => views(args@).index_of_first(flag@) is None,
        },
{
    let wanted = String::from_str(flag);
    let ghost all = views(args@);
    let mut i: usize = 0;
    while i < args.len()
        invariant
            i <= args.len(),
            all == views(args@),
            wanted@ == flag@,
            forall|j: int| 0 <= j < i ==> all[j] != flag@,
        decreases args.len() - i,
    {
        if args[i] == wanted {
            proof {
                all.index_of_first_ensures(flag@);
                assert(all[i as int] == flag@);
            }
            return Some(i);
        }
        i += 1;
    }
    proof {
        all.index_of_first_ensures(flag@);
    }
    None
}

/// Takes the first occurrence of `flag` out of `args` and says whether there was one.
fn take_flag(args: &mut Vec<String>, flag: &str) -> (present: bool)
    ensures
        present == views(old(args)@).contains(flag@),
        views(final(args)@) == views(old(args)@).remove_value(flag@),
{
    let ghost before = views(args@);
    proof {
        before.index_of_first_ensures(flag@);
    }
    match position(args, flag) {
        Some(i) => {
            args.remove(i);
            assert(views(args@) =~= before.remove(i as int));
            true
        },
        None => false,
    }
}

/// Parses an argument list (without the program name) into [`Arguments`].
///
/// The result is exactly [`parsed`] of the list: an error for a `--log-file`
/// without a value or for a wrong number of positional values, and otherwise
/// the arguments.
pub fn parse_args(args: Vec<String>) -> (r: Result<Arguments, UsageError>)
    ensures
        outcome_view(r) == parsed(views(args@)),
{
    let ghost given = views(args@);
    let mut args = args;
    proof {
        lemma_flags_differ();
        lemma_remove_value_keeps_others(given, CASE_INSENSITIVE_FLAG@, INTERACTIVE_FLAG@);
        lemma_remove_value_keeps_others(given, CASE_INSENSITIVE_FLAG@, PREVIEW_FLAG@);
        lemma_remove_value_keeps_others(
            given.remove_value(CASE_INSENSITIVE_FLAG@),
            INTERACTIVE_FLAG@,
            PREVIEW_FLAG@,
        );
    }
    let case_insensitive = take_flag(&mut args, CASE_INSENSITIVE_FLAG);
    let interactive = take_flag(&mut args, INTERACTIVE_FLAG);
    let preview = take_flag(&mut args, PREVIEW_FLAG);
    let ghost rest = views(args@);
    let mut log_file: Option<String> = None;
    match position(&args, LOG_FILE_FLAG) {
        Some(i) => {
            if i + 1 < args.len() {
                log_file = Some(args[i + 1].clone());
                args.remove(i);
                args.remove(i);
                assert(views(args@) =~= rest.remove(i as int).remove(i as int));
            } else {
                return Err(UsageError::MissingLogFileName);
            }
        },
        None => {},
    }
    if args.len() != POSITIONAL_COUNT {
        return Err(UsageError::WrongArgumentCount { got: args.len() });
    }
    Ok(
        Arguments {
            target: args[0].clone(),
            replacement: args[1].clone(),
            filename: args[2].clone(),
            output: args[3].clone(),
            case_insensitive,
            interactive,
            preview,
            log_file,
        },
    )
}

/// The four flags are pairwise different strings.
proof fn lemma_flags_differ()
    ensures
        CASE_INSENSITIVE_FLAG@ != INTERACTIVE_FLAG@,
        CASE_INSENSITIVE_FLAG@ != PREVIEW_FLAG@,
        INTERACTIVE_FLAG@ != PREVIEW_FLAG@,
{
    reveal_strlit("--case-insensitive");
    reveal_strlit("--interactive");
    reveal_strlit("--preview");
    assert(CASE_INSENSITIVE_FLAG@.len() == 18);
    assert(INTERACTIVE_FLAG@.len() == 13);
    assert(PREVIEW_FLAG@.len() == 9);
}

/// Taking out the first `removed` leaves the presence of any other value as it was.
proof fn lemma_remove_value_keeps_others<A>(s: Seq<A>, removed: A, other: A)
    requires
        removed != other,
    ensures
        s.remove_value(removed).contains(other) == s.contains(other),
{
    s.index_of_first_ensures(removed);
    match s.index_of_first(removed) {
        Some(i) => {
            let t = s.remove(i);
            if s.contains(other) {
                let k = choose|k: int| 0 <= k < s.len() && s[k] == other;
                if k < i {
                    assert(t[k] == other);
                } else {
                    assert(t[k - 1] == other);
                }
            }
            if t.contains(other) {
                let k = choose|k: int| 0 <= k < t.len() && t[k] == other;
                if k < i {
                    assert(s[k] == other);
                } else {
                    assert(s[k + 1] == other);
                }
            }
        },
        None => {},
    }
}

} // verus!
