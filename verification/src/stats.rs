//! Line and word counts of a text.

use crate::lines::{
    has_line_break, lemma_lines_concat, lemma_terminated_line, lemma_unterminated_line, lines_of,
};
use crate::text::{is_white_space, is_whitespace};
use vstd::prelude::*;
use vstd::string::StringSliceAdditionalSpecFns;
use vstd::utf8::encode_utf8;

verus! {

/// The counts that are reported for a text.
#[derive(Debug, Clone, Copy, PartialEq, Eq, Structural)]
pub struct Statistics {
    pub line_count: usize,
    pub word_count: usize,
}

/// Whether a word begins at index `i`: a character that is not whitespace,
/// at the start of the text or directly after whitespace.
pub open spec fn starts_word(s: Seq<char>, i: int) -> bool {
    !is_white_space(s[i]) && (i == 0 || is_white_space(s[i - 1]))
}

/// The number of words in a text: the maximal runs of characters that are
/// not whitespace, counted by where they begin.
pub open spec fn word_count_of(s: Seq<char>) -> nat
    decreases s.len(),
{
    if s.len() == 0 {
        0
    } else {
        word_count_of(s.drop_last()) + if starts_word(s, s.len() - 1) {
            1nat
        } else {
            0nat
        }
    }
}

/// The counts of a text.
pub open spec fn statistics_of(s: Seq<char>) -> Statistics {
    Statistics { line_count: lines_of(s).len() as usize, word_count: word_count_of(s) as usize }
}

/// A text has no more characters than its encoding has bytes.
pub proof fn lemma_chars_within_bytes(s: Seq<char>)
    ensures
        s.len() <= encode_utf8(s).len(),
    decreases s.len(),
{
    if s.len() > 0 {
        lemma_chars_within_bytes(s.drop_first());
    }
}

/// The number of characters of a text fits the machine's word.
proof fn lemma_text_len_bounded(text: &str, byte_len: usize)
    requires
        byte_len == text.spec_bytes().len(),
    ensures
        text@.len() <= usize::MAX,
{
    lemma_chars_within_bytes(text@);
}

/// The number of lines in `text`.
pub fn line_count(text: &str) -> (r: usize)
    ensures
        r == lines_of(text@).len(),
{
    let byte_len = text.as_bytes().len();
    proof {
        lemma_text_len_bounded(text, byte_len);
        assert(lines_of(text@.subrange(0, 0)) =~= Seq::<Seq<char>>::empty());
    }
    let mut count: usize = 0;
    let mut open_line = false;
    let ghost mut start: int = 0;
    for c in it: text.chars()
        invariant
            it.seq() == text@,
            text@.len() <= usize::MAX,
            0 <= start <= it.index(),
            start == 0 || text@[start - 1] == '\n',
            forall|j: int| start <= j < it.index() ==> text@[j] != '\n',
            count == lines_of(text@.subrange(0, start)).len(),
            count <= start,
            open_line == (start < it.index()),
    {
        if c == '\n' {
            proof {
                let i = it.index();
                let p = text@.subrange(0, start);
                let l = text@.subrange(start, i);
                assert(!has_line_break(l));
                lemma_lines_concat(p, l.push('\n'));
                lemma_terminated_line(l);
                assert(p + l.push('\n') =~= text@.subrange(0, i + 1));
                start = i + 1;
            }
            count += 1;
            open_line = false;
        } else {
            open_line = true;
        }
    }
    proof {
        let p = text@.subrange(0, start);
        let l = text@.subrange(start, text@.len() as int);
        assert(!has_line_break(l));
        lemma_lines_concat(p, l);
        lemma_unterminated_line(l);
        assert(p + l =~= text@);
    }
    if open_line {
        count + 1
    } else {
        count
    }
}

/// The number of words in `text`.
pub fn word_count(text: &str) -> (r: usize)
    ensures
        r == word_count_of(text@),
{
    let byte_len = text.as_bytes().len();
    proof {
        lemma_text_len_bounded(text, byte_len);
    }
    let mut count: usize = 0;
    let mut in_word = false;
    for c in it: text.chars()
        invariant
            it.seq() == text@,
            text@.len() <= usize::MAX,
            count == word_count_of(text@.take(it.index())),
            count <= it.index(),
            in_word == (it.index() > 0 && !is_white_space(text@[it.index() - 1])),
    {
        proof {
            let i = it.index();
            assert(text@.take(i + 1).drop_last() =~= text@.take(i));
        }
        let blank = is_whitespace(c);
        if !blank && !in_word {
            count += 1;
        }
        in_word = !blank;
    }
    assert(text@.take(text@.len() as int) =~= text@);
    count
}

/// The line and word counts of `text`.
pub fn statistics(text: &str) -> (r: Statistics)
    ensures
        r == statistics_of(text@),
{
    Statistics { line_count: line_count(text), word_count: word_count(text) }
}

} // verus!
