//! The boundary to the `regex` crate: compiling a pattern and scanning a text
//! for its matches. Nothing in this file is proved; every contract here is a
//! statement about `regex` that the rest of the library relies on.

use regex::Regex;
use vstd::prelude::*;
use vstd::string::StringSliceAdditionalSpecFns;
use vstd::utf8::is_char_boundary;

verus! {

/// A compiled pattern of the `regex` crate, opaque to the verifier.
#[verifier::external_type_specification]
#[verifier::external_body]
pub struct ExRegex(regex::Regex);

/// The error that `regex` reports for a pattern it cannot compile.
#[verifier::external_type_specification]
#[verifier::external_body]
pub struct ExRegexError(regex::Error);

/// What `Regex::new` makes of a pattern: the compiled matcher, or `None`
/// where the pattern is rejected.
pub uninterp spec fn compiled(pattern: Seq<char>) -> Option<Regex>;

/// The byte spans `(start, end)` of the successive matches that
/// `Regex::find_iter` yields for a matcher on a text, in the order yielded.
pub uninterp spec fn found(re: Regex, text: Seq<char>) -> Seq<(usize, usize)>;

/// Spans that can be cut out of `bytes` one after the other: each lies within
/// the text, starts and ends on a character boundary, and begins no earlier
/// than the previous one ended.
pub open spec fn spans_fit(bytes: Seq<u8>, spans: Seq<(usize, usize)>) -> bool {
    &&& forall|i: int|
        0 <= i < spans.len() ==> {
            &&& (#[trigger] spans[i]).0 <= spans[i].1 <= bytes.len()
            &&& is_char_boundary(bytes, spans[i].0 as int)
            &&& is_char_boundary(bytes, spans[i].1 as int)
        }
    &&& forall|i: int, j: int|
        0 <= i < j < spans.len() ==> (#[trigger] spans[i]).1 <= (#[trigger] spans[j]).0
}

/// Calls `regex::Regex::new`. The outcome depends on the pattern alone, so it
/// is named by [`compiled`]: `Ok` carries the compiled matcher, and an error
/// is returned exactly for the patterns that `regex` rejects.
#[verifier::external_body]
pub(crate) fn compile(pattern: &str) -> (r: Result<Regex, regex::Error>)
    ensures
        match r {
            Ok(re) => compiled(pattern@) == Some(re),
            Err(_) => compiled(pattern@) is None,
        },
{
    Regex::new(pattern)
}

/// Calls `regex::Regex::find_iter` and collects the start and end offset of
/// every match. `regex` documents that the matches are successive and
/// non-overlapping, that `start <= end`, and that both offsets fall on
/// UTF-8 character boundaries of the searched text.
#[verifier::external_body]
pub(crate) fn find_spans(re: &Regex, text: &str) -> (r: Vec<(usize, usize)>)
    ensures
        r@ == found(*re, text@),
        spans_fit(text.spec_bytes(), r@),
{
    re.find_iter(text).map(|m| (m.start(), m.end())).collect()
}

} // verus!
