//! The review pipeline: what becomes of a rewritten text before it is written.
//!
//! In direct mode the rewritten text is final as it stands. In preview mode
//! it is only shown, by its first lines, and is not to be written. In
//! interactive mode each line is put to the user: a line that is confirmed is
//! kept, and a line that is not confirmed is blanked; either way its line
//! break stays.

use crate::engine::SubstitutionResult;
use crate::lines::{has_line_break, lemma_lines_hold_no_line_break, lines_of, split_lines};
use crate::text::{chars_of, is_white_space, is_whitespace, join_lines, joined, push_char, views};
use vstd::prelude::*;
use vstd::string::StringExecFns;

verus! {

/// Number of lines that a preview shows at most.
pub const PREVIEW_LINE_LIMIT: usize = 10;

/// How a rewritten text is reviewed.
#[derive(Debug, Clone, Copy, PartialEq, Eq, Structural)]
pub enum ReviewMode {
    /// Every change is accepted.
    Direct,
    /// The changes are shown and nothing is written.
    Preview,
    /// Each line is accepted or rejected by an answer.
    Interactive,
}

/// The text that a review arrived at, and the mode it was made in.
#[derive(Debug, Clone, PartialEq, Eq)]
pub struct ReviewOutcome {
    pub final_text: String,
    pub mode: ReviewMode,
}

/// What preview mode shows: the first lines of the rewritten text, joined by
/// line breaks, and the number of matches.
#[derive(Debug, Clone, PartialEq, Eq)]
pub struct Preview {
    pub excerpt: String,
    pub match_count: usize,
}

/// The text without the whitespace at its start.
pub open spec fn trim_start(s: Seq<char>) -> Seq<char>
    decreases s.len(),
{
    if s.len() > 0 && is_white_space(s[0]) {
        trim_start(s.drop_first())
    } else {
        s
    }
}

/// The text without the whitespace at its end.
pub open spec fn trim_end(s: Seq<char>) -> Seq<char>
    decreases s.len(),
{
    if s.len() > 0 && is_white_space(s.last()) {
        trim_end(s.drop_last())
    } else {
        s
    }
}

/// The text without the whitespace at either end.
pub open spec fn trimmed(s: Seq<char>) -> Seq<char> {
    trim_end(trim_start(s))
}

/// An answer confirms a line if it is the letter `y`, in either case, with
/// nothing but whitespace around it.
pub open spec fn is_yes(answer: Seq<char>) -> bool {
    trimmed(answer) == seq!['y'] || trimmed(answer) == seq!['Y']
}

/// Whether line `i` is confirmed: there is an answer for it, and it is a yes.
pub open spec fn confirmed(answers: Seq<Seq<char>>, i: int) -> bool {
    0 <= i < answers.len() && is_yes(answers[i])
}

/// What is left of a line after its review: the line, or nothing.
pub open spec fn kept(line: Seq<char>, accepted: bool) -> Seq<char> {
    if accepted {
        line
    } else {
        Seq::empty()
    }
}

/// The text after interactive review: for each line in turn what is kept of
/// it, followed by a line break.
pub open spec fn reviewed(lines: Seq<Seq<char>>, answers: Seq<Seq<char>>) -> Seq<char>
    decreases lines.len(),
{
    if lines.len() == 0 {
        Seq::empty()
    } else {
        reviewed(lines.drop_last(), answers) + kept(
            lines.last(),
            confirmed(answers, lines.len() - 1),
        ) + seq!['\n']
    }
}

/// The final text of a review of `rewritten` in the given mode.
pub open spec fn final_text_of(
    rewritten: Seq<char>,
    mode: ReviewMode,
    answers: Seq<Seq<char>>,
) -> Seq<char> {
    match mode {
        ReviewMode::Interactive => reviewed(lines_of(rewritten), answers),
        _ => rewritten,
    }
}

/// The number of line feeds in a text.
pub open spec fn line_break_count(s: Seq<char>) -> nat
    decreases s.len(),
{
    if s.len() == 0 {
        0
    } else {
        line_break_count(s.drop_last()) + if s.last() == '\n' {
            1nat
        } else {
            0nat
        }
    }
}

/// The lines that a preview shows: the first ones, up to the limit.
pub open spec fn preview_lines(lines: Seq<Seq<char>>) -> Seq<Seq<char>> {
    if lines.len() <= PREVIEW_LINE_LIMIT {
        lines
    } else {
        lines.take(PREVIEW_LINE_LIMIT as int)
    }
}

/// Line feeds are counted part by part.
pub proof fn lemma_line_break_count_concat(a: Seq<char>, b: Seq<char>)
    ensures
        line_break_count(a + b) == line_break_count(a) + line_break_count(b),
    decreases b.len(),
{
    if b.len() == 0 {
        assert(a + b =~= a);
    } else {
        lemma_line_break_count_concat(a, b.drop_last());
        assert((a + b).drop_last() =~= a + b.drop_last());
    }
}

/// A text without a line feed counts none.
pub proof fn lemma_no_line_break_counts_zero(s: Seq<char>)
    requires
        !has_line_break(s),
    ensures
        line_break_count(s) == 0,
    decreases s.len(),
{
    if s.len() > 0 {
        assert(s[s.len() - 1] != '\n');
        assert(!has_line_break(s.drop_last())) by {
            if has_line_break(s.drop_last()) {
                let j = choose|j: int| 0 <= j < s.drop_last().len() && s.drop_last()[j] == '\n';
                assert(s[j] == '\n');
            }
        }
        lemma_no_line_break_counts_zero(s.drop_last());
    }
}

/// Whatever the answers, reviewing lines that hold no line feed gives a text
/// with exactly one line feed per line.
pub proof fn lemma_reviewed_line_breaks(lines: Seq<Seq<char>>, answers: Seq<Seq<char>>)
    requires
        forall|i: int| 0 <= i < lines.len() ==> !has_line_break(#[trigger] lines[i]),
    ensures
        line_break_count(reviewed(lines, answers)) == lines.len(),
    decreases lines.len(),
{
    if lines.len() > 0 {
        let head = lines.drop_last();
        assert forall|i: int| 0 <= i < head.len() implies !has_line_break(#[trigger] head[i]) by {
            assert(head[i] == lines[i]);
        }
        lemma_reviewed_line_breaks(head, answers);
        let line = kept(lines.last(), confirmed(answers, lines.len() - 1));
        assert(!has_line_break(line)) by {
            assert(!has_line_break(lines[lines.len() - 1]));
        }
        lemma_no_line_break_counts_zero(line);
        lemma_line_break_count_concat(reviewed(head, answers), line);
        lemma_line_break_count_concat(reviewed(head, answers) + line, seq!['\n']);
        assert(line_break_count(seq!['\n']) == 1) by {
            assert(seq!['\n'].drop_last() =~= Seq::<char>::empty());
            assert(line_break_count(Seq::<char>::empty()) == 0);
        }
    }
}

/// Interactive review keeps the line structure: for a text of N lines, any
/// answers whatever give a final text with exactly N line feeds.
pub proof fn lemma_interactive_keeps_line_structure(
    rewritten: Seq<char>,
    answers: Seq<Seq<char>>,
)
    ensures
        line_break_count(final_text_of(rewritten, ReviewMode::Interactive, answers)) == lines_of(
            rewritten,
        ).len(),
{
    lemma_lines_hold_no_line_break(rewritten);
    lemma_reviewed_line_breaks(lines_of(rewritten), answers);
}

/// Whether an answer confirms a line.
pub fn accepts(answer: &str) -> (b: bool)
    ensures
        b == is_yes(answer@),
{
    let chars = chars_of(answer);
    let n = chars.len();
    let mut lo: usize = 0;
    assert(chars@.subrange(0, n as int) =~= chars@);
    while lo < n && is_whitespace(chars[lo])
        invariant
            n == chars.len(),
            lo <= n,
            trim_start(chars@) == trim_start(chars@.subrange(lo as int, n as int)),
        decreases n - lo,
    {
        assert(chars@.subrange(lo as int, n as int).drop_first() =~= chars@.subrange(
            lo + 1,
            n as int,
        ));
        lo += 1;
    }
    let ghost body = chars@.subrange(lo as int, n as int);
    assert(trim_start(chars@) == body);
    let mut hi: usize = n;
    while hi > lo && is_whitespace(chars[hi - 1])
        invariant
            n == chars.len(),
            lo <= hi <= n,
            body == chars@.subrange(lo as int, n as int),
            trim_end(body) == trim_end(chars@.subrange(lo as int, hi as int)),
        decreases hi - lo,
    {
        assert(chars@.subrange(lo as int, hi as int).drop_last() =~= chars@.subrange(
            lo as int,
            hi - 1,
        ));
        hi -= 1;
    }
    let ghost core = chars@.subrange(lo as int, hi as int);
    assert(trimmed(answer@) == core);
    if hi - lo == 1 {
        let c = chars[lo];
        assert(core =~= seq![c]);
        assert(seq![c] == seq!['y'] <==> c == 'y') by {
            if seq![c] == seq!['y'] {
                assert(seq![c][0] == seq!['y'][0]);
            }
        }
        assert(seq![c] == seq!['Y'] <==> c == 'Y') by {
            if seq![c] == seq!['Y'] {
                assert(seq![c][0] == seq!['Y'][0]);
            }
        }
        c == 'y' || c == 'Y'
    } else {
        assert(core.len() != 1);
        assert(seq!['y'].len() == 1 && seq!['Y'].len() == 1);
        false
    }
}

/// Reviews one line: appends the line to the text if the answer confirms it,
/// and a line break in either case.
pub fn review_line(final_text: &mut String, line: &str, answer: &str)
    ensures
        final(final_text)@ == old(final_text)@ + kept(line@, is_yes(answer@)) + seq!['\n'],
{
    if accepts(answer) {
        final_text.append(line);
    }
    push_char(final_text, '\n');
    assert(final_text@ =~= old(final_text)@ + kept(line@, is_yes(answer@)) + seq!['\n']);
}

/// Turns a rewritten text into the final text of the given mode.
///
/// In direct and in preview mode the final text is the rewritten text. In
/// interactive mode answer `i` decides on line `i`; a line whose answer is
/// missing is rejected like one whose answer is not a yes. The final text
/// then has one line feed for each line of the rewritten text.
pub fn review(result: &SubstitutionResult, mode: ReviewMode, answers: &Vec<String>) -> (r:
    ReviewOutcome)
    ensures
        r.mode == mode,
        r.final_text@ == final_text_of(result.rewritten_text@, mode, views(answers@)),
        mode == ReviewMode::Interactive ==> line_break_count(r.final_text@) == lines_of(
            result.rewritten_text@,
        ).len(),
{
    match mode {
        ReviewMode::Interactive => {
            let lines = split_lines(result.rewritten_text.as_str());
            let ghost all = views(lines@);
            let mut out = String::new();
            let mut i: usize = 0;
            while i < lines.len()
                invariant
                    i <= lines.len(),
                    all == views(lines@),
                    out@ == reviewed(all.take(i as int), views(answers@)),
                decreases lines.len() - i,
            {
                let ghost done = all.take(i as int);
                let ghost next = all.take(i + 1);
                if i < answers.len() {
                    review_line(&mut out, lines[i].as_str(), answers[i].as_str());
                } else {
                    push_char(&mut out, '\n');
                }
                proof {
                    assert(next.drop_last() =~= done);
                    assert(next.last() == lines@[i as int]@);
                    assert(out@ =~= reviewed(next, views(answers@)));
                }
                i += 1;
            }
            proof {
                assert(all.take(i as int) =~= all);
                lemma_interactive_keeps_line_structure(result.rewritten_text@, views(answers@));
            }
            ReviewOutcome { final_text: out, mode }
        },
        _ => ReviewOutcome { final_text: result.rewritten_text.clone(), mode },
    }
}

/// What preview mode shows of a result.
pub fn preview(result: &SubstitutionResult) -> (r: Preview)
    ensures
        r.match_count == result.matches@.len(),
        r.excerpt@ == joined(preview_lines(lines_of(result.rewritten_text@))),
{
    let lines = split_lines(result.rewritten_text.as_str());
    let shown = if lines.len() <= PREVIEW_LINE_LIMIT {
        lines.len()
    } else {
        PREVIEW_LINE_LIMIT
    };
    assert(views(lines@).take(lines.len() as int) =~= views(lines@));
    Preview { excerpt: join_lines(&lines, shown), match_count: result.matches.len() }
}

impl ReviewOutcome {
    /// The text that is to be written, if any: none after a preview, and the
    /// final text otherwise.
    pub fn text_to_write(&self) -> (r: Option<&str>)
        ensures
            r is None <==> self.mode == ReviewMode::Preview,
            r matches Some(text) ==> text@ == self.final_text@,
    {
        match self.mode {
            ReviewMode::Preview => None,
            _ => Some(self.final_text.as_str()),
        }
    }
}

} // verus!
