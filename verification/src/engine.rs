//! The substitution engine: every match of a pattern in a text is replaced by
//! a literal string, and each match is recorded with its byte offset in the
//! original text.
//!
//! Offsets are byte offsets into the UTF-8 encoding of the text, so the
//! contracts of this module speak of texts through their bytes,
//! `encode_utf8(text@)`.

use crate::matcher::{compile, compiled, find_spans, found, spans_fit};
use vstd::prelude::*;
use vstd::string::{StringExecFns, StringSliceAdditionalSpecFns};
use vstd::utf8::{
    encode_utf8, encode_utf8_decode_utf8, encode_utf8_valid_utf8, is_char_boundary,
    is_char_boundary_iff_not_is_continuation_byte, is_char_boundary_start_end_of_seq, valid_utf8,
    valid_utf8_split,
};

verus! {

/// Prefix that makes the pattern language match without regard to case.
pub const CASE_INSENSITIVE_PREFIX: &'static str = "(?i)";

/// What to replace, in what, and by what.
#[derive(Debug, Clone, PartialEq, Eq)]
pub struct ReplacementRequest {
    pub pattern: String,
    pub replacement: String,
    pub text: String,
    pub case_insensitive: bool,
}

/// One match: where it starts in the original text, and the text it covered.
#[derive(Debug, Clone, PartialEq, Eq)]
pub struct MatchRecord {
    pub offset: usize,
    pub matched_text: String,
}

/// The rewritten text and the matches that were replaced, in text order.
#[derive(Debug, Clone, PartialEq, Eq)]
pub struct SubstitutionResult {
    pub rewritten_text: String,
    pub matches: Vec<MatchRecord>,
}

/// The pattern of a request does not compile.
#[derive(Debug)]
pub struct PatternError {
    /// The error as the pattern compiler reported it.
    pub cause: regex::Error,
}

/// The pattern that is handed to the compiler: the request's own pattern,
/// behind the case-insensitivity prefix where that is asked for.
pub open spec fn matcher_source(pattern: Seq<char>, case_insensitive: bool) -> Seq<char> {
    if case_insensitive {
        CASE_INSENSITIVE_PREFIX@ + pattern
    } else {
        pattern
    }
}

/// Where the unmatched text resumes after the given spans: the end of the
/// last one, or the start of the text.
pub open spec fn resume_at(spans: Seq<(usize, usize)>) -> int {
    if spans.len() == 0 {
        0
    } else {
        spans.last().1 as int
    }
}

/// The rewritten text up to and including the replacement of the last span:
/// for each span in turn, the unmatched bytes before it, then the replacement.
pub open spec fn rewritten_head(
    bytes: Seq<u8>,
    spans: Seq<(usize, usize)>,
    replacement: Seq<u8>,
) -> Seq<u8>
    decreases spans.len(),
{
    if spans.len() == 0 {
        Seq::empty()
    } else {
        rewritten_head(bytes, spans.drop_last(), replacement) + bytes.subrange(
            resume_at(spans.drop_last()),
            spans.last().0 as int,
        ) + replacement
    }
}

/// The text with every span replaced: the head, then the unmatched rest.
pub open spec fn rewritten(
    bytes: Seq<u8>,
    spans: Seq<(usize, usize)>,
    replacement: Seq<u8>,
) -> Seq<u8> {
    rewritten_head(bytes, spans, replacement) + bytes.subrange(
        resume_at(spans),
        bytes.len() as int,
    )
}

/// Total number of bytes that the spans cover.
pub open spec fn matched_len(spans: Seq<(usize, usize)>) -> int
    decreases spans.len(),
{
    if spans.len() == 0 {
        0
    } else {
        matched_len(spans.drop_last()) + (spans.last().1 - spans.last().0)
    }
}

/// The records are those of the spans: one per span, in order, each with the
/// span's start as its offset and the bytes under the span as its text.
pub open spec fn records_of_spans(
    bytes: Seq<u8>,
    spans: Seq<(usize, usize)>,
    records: Seq<MatchRecord>,
) -> bool {
    &&& records.len() == spans.len()
    &&& forall|i: int|
        0 <= i < spans.len() ==> {
            &&& (#[trigger] records[i]).offset == spans[i].0
            &&& encode_utf8(records[i].matched_text@) == bytes.subrange(
                spans[i].0 as int,
                spans[i].1 as int,
            )
        }
}

/// `result` is what replacing `spans` in `text` by `replacement` gives.
pub open spec fn is_substitution(
    result: SubstitutionResult,
    text: Seq<char>,
    spans: Seq<(usize, usize)>,
    replacement: Seq<char>,
) -> bool {
    &&& encode_utf8(result.rewritten_text@) == rewritten(
        encode_utf8(text),
        spans,
        encode_utf8(replacement),
    )
    &&& records_of_spans(encode_utf8(text), spans, result.matches@)
}

/// Encoding distributes over concatenation.
pub proof fn lemma_encode_concat(a: Seq<char>, b: Seq<char>)
    ensures
        encode_utf8(a + b) == encode_utf8(a) + encode_utf8(b),
    decreases a.len(),
{
    if a.len() == 0 {
        assert(a + b =~= b);
        assert(encode_utf8(a) + encode_utf8(b) =~= encode_utf8(b));
    } else {
        lemma_encode_concat(a.drop_first(), b);
        assert((a + b).drop_first() =~= a.drop_first() + b);
        assert(encode_utf8(a + b) =~= encode_utf8(a) + encode_utf8(b));
    }
}

/// Two texts with the same bytes are the same text.
pub proof fn lemma_same_bytes_same_text(a: Seq<char>, b: Seq<char>)
    requires
        encode_utf8(a) == encode_utf8(b),
    ensures
        a == b,
{
    encode_utf8_decode_utf8(a);
    encode_utf8_decode_utf8(b);
}

/// Offset fidelity: in a substitution, the bytes of the original text that
/// start at a record's offset, as many as the record's text has, are the
/// record's text.
pub proof fn lemma_offset_fidelity(
    result: SubstitutionResult,
    text: Seq<char>,
    spans: Seq<(usize, usize)>,
    replacement: Seq<char>,
    i: int,
)
    requires
        spans_fit(encode_utf8(text), spans),
        is_substitution(result, text, spans, replacement),
        0 <= i < result.matches@.len(),
    ensures
        ({
            let record = result.matches@[i];
            let matched = encode_utf8(record.matched_text@);
            &&& record.offset + matched.len() <= encode_utf8(text).len()
            &&& encode_utf8(text).subrange(record.offset as int, record.offset + matched.len())
                == matched
        }),
{
    let record = result.matches@[i];
    assert(record.offset == spans[i].0);
    assert(spans[i].0 <= spans[i].1 <= encode_utf8(text).len());
}

/// The records of a substitution stand in text order: a later record starts
/// no earlier than an earlier one ends.
pub proof fn lemma_records_in_text_order(
    result: SubstitutionResult,
    text: Seq<char>,
    spans: Seq<(usize, usize)>,
    replacement: Seq<char>,
    i: int,
    j: int,
)
    requires
        spans_fit(encode_utf8(text), spans),
        is_substitution(result, text, spans, replacement),
        0 <= i < j < result.matches@.len(),
    ensures
        result.matches@[i].offset + encode_utf8(result.matches@[i].matched_text@).len()
            <= result.matches@[j].offset,
{
    assert(result.matches@[i].offset == spans[i].0);
    assert(result.matches@[j].offset == spans[j].0);
    assert(spans[i].0 <= spans[i].1 <= encode_utf8(text).len());
    assert(spans[i].1 <= spans[j].0);
}

/// Replacement count: the rewritten text is the original without the bytes
/// under the spans, with exactly one copy of the replacement for each span.
pub proof fn lemma_rewritten_len(
    bytes: Seq<u8>,
    spans: Seq<(usize, usize)>,
    replacement: Seq<u8>,
)
    requires
        spans_fit(bytes, spans),
    ensures
        rewritten_head(bytes, spans, replacement).len() == resume_at(spans) - matched_len(spans)
            + spans.len() * replacement.len(),
        rewritten(bytes, spans, replacement).len() == bytes.len() - matched_len(spans)
            + spans.len() * replacement.len(),
        0 <= resume_at(spans) <= bytes.len(),
    decreases spans.len(),
{
    if spans.len() > 0 {
        let earlier = spans.drop_last();
        let last = spans.last();
        assert(spans_fit(bytes, earlier)) by {
            assert forall|i: int| 0 <= i < earlier.len() implies earlier[i] == spans[i] by {}
        }
        lemma_rewritten_len(bytes, earlier, replacement);
        assert(last == spans[spans.len() - 1]);
        assert(last.0 <= last.1 <= bytes.len());
        if earlier.len() > 0 {
            assert(earlier.last() == spans[spans.len() - 2]);
            assert(spans[spans.len() - 2].1 <= spans[spans.len() - 1].0);
        }
        assert(resume_at(earlier) <= last.0);
        let n = spans.len() as int;
        let r = replacement.len() as int;
        assert((n - 1) * r + r == n * r) by (nonlinear_arith);
    }
}

/// A character boundary lies within the text.
proof fn lemma_boundary_within(bytes: Seq<u8>, index: int)
    requires
        valid_utf8(bytes),
        is_char_boundary(bytes, index),
    ensures
        0 <= index <= bytes.len(),
{
}

/// A boundary of the text that lies before another boundary is also a
/// boundary of the text cut off at the later one.
proof fn lemma_boundary_in_prefix(bytes: Seq<u8>, from: int, to: int)
    requires
        valid_utf8(bytes),
        is_char_boundary(bytes, from),
        is_char_boundary(bytes, to),
        from <= to,
    ensures
        valid_utf8(bytes.subrange(0, to)),
        is_char_boundary(bytes.subrange(0, to), from),
{
    lemma_boundary_within(bytes, from);
    lemma_boundary_within(bytes, to);
    valid_utf8_split(bytes, to);
    let head = bytes.subrange(0, to);
    if from == to {
        is_char_boundary_start_end_of_seq(head);
    } else {
        is_char_boundary_iff_not_is_continuation_byte(bytes, from);
        is_char_boundary_iff_not_is_continuation_byte(head, from);
    }
}

/// The part of `text` between two of its character boundaries.
fn slice<'a>(text: &'a str, from: usize, to: usize) -> (r: &'a str)
    requires
        from <= to,
        is_char_boundary(text.spec_bytes(), from as int),
        is_char_boundary(text.spec_bytes(), to as int),
    ensures
        r.spec_bytes() == text.spec_bytes().subrange(from as int, to as int),
{
    proof {
        encode_utf8_valid_utf8(text@);
        lemma_boundary_within(text.spec_bytes(), to as int);
        lemma_boundary_in_prefix(text.spec_bytes(), from as int, to as int);
    }
    let (head, _) = text.split_at(to);
    let (_, part) = head.split_at(from);
    assert(part.spec_bytes() =~= text.spec_bytes().subrange(from as int, to as int));
    part
}

/// Whether the spans can be cut out of `text` one after the other.
fn fits(text: &str, spans: &Vec<(usize, usize)>) -> (b: bool)
    ensures
        b == spans_fit(text.spec_bytes(), spans@),
{
    let ghost bytes = text.spec_bytes();
    proof {
        encode_utf8_valid_utf8(text@);
    }
    let mut cursor: usize = 0;
    let mut k: usize = 0;
    while k < spans.len()
        invariant
            k <= spans.len(),
            bytes == text.spec_bytes(),
            valid_utf8(bytes),
            spans_fit(bytes, spans@.take(k as int)),
            cursor == resume_at(spans@.take(k as int)),
            forall|i: int| 0 <= i < k ==> (#[trigger] spans@[i]).1 <= cursor,
        decreases spans.len() - k,
    {
        let (start, end) = spans[k];
        let ok = cursor <= start && start <= end && text.is_char_boundary(start)
            && text.is_char_boundary(end);
        if !ok {
            proof {
                if spans_fit(bytes, spans@) {
                    assert(spans@[k as int].0 <= spans@[k as int].1);
                    if k > 0 {
                        assert(spans@.take(k as int).last() == spans@[k - 1]);
                        assert(spans@[k - 1].1 <= spans@[k as int].0);
                    }
                    assert(false);
                }
            }
            return false;
        }
        proof {
            lemma_boundary_within(bytes, end as int);
            let next = spans@.take(k + 1);
            assert(next.last() == spans@[k as int]);
            assert forall|i: int| 0 <= i < next.len() implies {
                &&& (#[trigger] next[i]).0 <= next[i].1 <= bytes.len()
                &&& is_char_boundary(bytes, next[i].0 as int)
                &&& is_char_boundary(bytes, next[i].1 as int)
            } by {
                if i < k {
                    assert(spans@.take(k as int)[i] == next[i]);
                }
            }
            assert forall|i: int, j: int| 0 <= i < j < next.len() implies (#[trigger] next[i]).1 <= (
            #[trigger] next[j]).0 by {
                if j < k {
                    assert(spans@.take(k as int)[i] == next[i]);
                    assert(spans@.take(k as int)[j] == next[j]);
                } else {
                    assert(spans@[i].1 <= cursor);
                }
            }
        }
        cursor = end;
        k += 1;
    }
    assert(spans@.take(k as int) =~= spans@);
    true
}

/// Replaces the given spans of `text` by `replacement` and records each one.
///
/// The result is the substitution that [`is_substitution`] describes: the
/// unmatched text is kept byte for byte, every span gives way to one copy of
/// the replacement, and the records hold the spans' starts and former
/// contents. With no span, the text comes back unchanged.
pub fn splice(text: &str, spans: &Vec<(usize, usize)>, replacement: &str) -> (r:
    SubstitutionResult)
    requires
        spans_fit(text.spec_bytes(), spans@),
    ensures
        is_substitution(r, text@, spans@, replacement@),
        r.matches@.len() == spans@.len(),
        spans@.len() == 0 ==> r.rewritten_text@ == text@,
{
    let ghost bytes = text.spec_bytes();
    let ghost rep = replacement.spec_bytes();
    proof {
        encode_utf8_valid_utf8(text@);
        is_char_boundary_start_end_of_seq(bytes);
    }
    let mut out = String::new();
    let mut matches: Vec<MatchRecord> = Vec::new();
    let mut cursor: usize = 0;
    let mut k: usize = 0;
    while k < spans.len()
        invariant
            k <= spans.len(),
            bytes == text.spec_bytes(),
            rep == replacement.spec_bytes(),
            valid_utf8(bytes),
            spans_fit(bytes, spans@),
            cursor == resume_at(spans@.take(k as int)),
            is_char_boundary(bytes, cursor as int),
            encode_utf8(out@) == rewritten_head(bytes, spans@.take(k as int), rep),
            records_of_spans(bytes, spans@.take(k as int), matches@),
        decreases spans.len() - k,
    {
        let (start, end) = spans[k];
        proof {
            if k > 0 {
                assert(spans@.take(k as int).last() == spans@[k - 1]);
                assert(spans@[k - 1].1 <= spans@[k as int].0);
            }
        }
        let gap = slice(text, cursor, start);
        let matched = slice(text, start, end);
        let ghost before = out@;
        out.append(gap);
        out.append(replacement);
        matches.push(MatchRecord { offset: start, matched_text: String::from_str(matched) });
        proof {
            let done = spans@.take(k as int);
            let next = spans@.take(k + 1);
            assert(next.drop_last() =~= done);
            assert(next.last() == spans@[k as int]);
            lemma_encode_concat(before, gap@);
            lemma_encode_concat(before + gap@, replacement@);
            assert forall|i: int| 0 <= i < next.len() implies {
                &&& (#[trigger] matches@[i]).offset == next[i].0
                &&& encode_utf8(matches@[i].matched_text@) == bytes.subrange(
                    next[i].0 as int,
                    next[i].1 as int,
                )
            } by {
                if i < k {
                    assert(done[i] == next[i]);
                }
            }
        }
        cursor = end;
        k += 1;
    }
    assert(spans@.take(k as int) =~= spans@);
    let (_, rest) = text.split_at(cursor);
    let ghost head = out@;
    out.append(rest);
    proof {
        lemma_encode_concat(head, rest@);
        if spans@.len() == 0 {
            assert(encode_utf8(out@) =~= bytes);
            lemma_same_bytes_same_text(out@, text@);
        }
    }
    SubstitutionResult { rewritten_text: out, matches }
}

/// Replaces the given spans of `text` where they can be cut out of it one
/// after the other, and returns `None` where they cannot.
pub fn apply_spans(text: &str, spans: &Vec<(usize, usize)>, replacement: &str) -> (r: Option<
    SubstitutionResult,
>)
    ensures
        r is Some <==> spans_fit(text.spec_bytes(), spans@),
        r matches Some(result) ==> {
            &&& is_substitution(result, text@, spans@, replacement@)
            &&& result.matches@.len() == spans@.len()
            &&& (spans@.len() == 0 ==> result.rewritten_text@ == text@)
        },
{
    if fits(text, spans) {
        Some(splice(text, spans, replacement))
    } else {
        None
    }
}

/// Replaces every match of the request's pattern in its text by the
/// replacement, taken literally.
///
/// Fails exactly when the pattern, behind the case-insensitivity prefix where
/// that is asked for, does not compile. Otherwise the result is the
/// substitution of the matches that the compiled pattern finds in the text:
/// as many records as matches, and the text unchanged where there is none.
pub fn substitute(request: &ReplacementRequest) -> (r: Result<SubstitutionResult, PatternError>)
    ensures
        match r {
            Ok(result) => {
                &&& compiled(
                    matcher_source(request.pattern@, request.case_insensitive),
                ) matches Some(re)
                &&& spans_fit(encode_utf8(request.text@), found(re, request.text@))
                &&& is_substitution(
                    result,
                    request.text@,
                    found(re, request.text@),
                    request.replacement@,
                )
                &&& result.matches@.len() == found(re, request.text@).len()
                &&& (found(re, request.text@).len() == 0 ==> result.rewritten_text@
                    == request.text@)
            },
            Err(_) => compiled(matcher_source(request.pattern@, request.case_insensitive)) is None,
        },
{
    let source = if request.case_insensitive {
        String::from_str(CASE_INSENSITIVE_PREFIX).concat(request.pattern.as_str())
    } else {
        request.pattern.clone()
    };
    match compile(source.as_str()) {
        Ok(re) => {
            let spans = find_spans(&re, request.text.as_str());
            Ok(splice(request.text.as_str(), &spans, request.replacement.as_str()))
        },
        Err(cause) => Err(PatternError { cause }),
    }
}

} // verus!
