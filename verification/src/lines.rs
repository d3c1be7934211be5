//! Splitting a text into lines.
//!
//! A line ends at a line feed, or at the end of the text where the text does
//! not end in a line feed. The line feed is not part of the line, and neither
//! is a carriage return directly before it. Text after the last line feed
//! is a line of its own if there is any.

use crate::text::{chars_of, string_of, views};
use vstd::prelude::*;

verus! {

/// Index of the first line feed in `s`, or the length of `s` if it has none.
pub open spec fn first_line_break(s: Seq<char>) -> int
    decreases s.len(),
{
    if s.len() == 0 || s[0] == '\n' {
        0
    } else {
        1 + first_line_break(s.drop_first())
    }
}

/// The line without the carriage return at its end, if it has one.
pub open spec fn without_carriage_return(line: Seq<char>) -> Seq<char> {
    if line.len() > 0 && line.last() == '\r' {
        line.drop_last()
    } else {
        line
    }
}

/// The lines of a text, in order.
pub open spec fn lines_of(s: Seq<char>) -> Seq<Seq<char>>
    decreases s.len(),
{
    if s.len() == 0 {
        Seq::empty()
    } else {
        let n = first_line_break(s);
        if 0 <= n < s.len() {
            seq![without_carriage_return(s.subrange(0, n))] + lines_of(
                s.subrange(n + 1, s.len() as int),
            )
        } else {
            seq![s]
        }
    }
}

/// Whether `s` holds a line feed.
pub open spec fn has_line_break(s: Seq<char>) -> bool {
    exists|i: int| 0 <= i < s.len() && s[i] == '\n'
}

/// The first line break is where the first line feed stands.
pub proof fn lemma_first_line_break(s: Seq<char>)
    ensures
        0 <= first_line_break(s) <= s.len(),
        first_line_break(s) < s.len() ==> s[first_line_break(s)] == '\n',
        forall|j: int| 0 <= j < first_line_break(s) ==> s[j] != '\n',
    decreases s.len(),
{
    if s.len() == 0 || s[0] == '\n' {
    } else {
        let rest = s.drop_first();
        lemma_first_line_break(rest);
        assert forall|j: int| 0 <= j < first_line_break(s) implies s[j] != '\n' by {
            if j > 0 {
                assert(rest[j - 1] == s[j]);
            }
        }
    }
}

/// The first line break is the one index that holds a line feed with none before it.
proof fn lemma_first_line_break_is(s: Seq<char>, n: int)
    requires
        0 <= n <= s.len(),
        n < s.len() ==> s[n] == '\n',
        forall|j: int| 0 <= j < n ==> s[j] != '\n',
    ensures
        first_line_break(s) == n,
{
    lemma_first_line_break(s);
    let m = first_line_break(s);
    if m < n {
        assert(s[m] != '\n');
    } else if n < m {
        assert(s[n] != '\n');
    }
}

/// The lines of a text that is empty or ends in a line feed, followed by more
/// text, are its own lines followed by the lines of what follows.
pub proof fn lemma_lines_concat(p: Seq<char>, q: Seq<char>)
    requires
        p.len() == 0 || p.last() == '\n',
    ensures
        lines_of(p + q) == lines_of(p) + lines_of(q),
    decreases p.len(),
{
    if p.len() == 0 {
        assert(p + q =~= q);
        assert(lines_of(p) + lines_of(q) =~= lines_of(q));
    } else {
        let s = p + q;
        lemma_first_line_break(p);
        let n = first_line_break(p);
        assert(n < p.len()) by {
            if n == p.len() {
                assert(p[p.len() - 1] != '\n');
            }
        }
        assert forall|j: int| 0 <= j < n implies s[j] != '\n' by {
            assert(s[j] == p[j]);
        }
        assert(s[n] == p[n]);
        lemma_first_line_break_is(s, n);
        let p_rest = p.subrange(n + 1, p.len() as int);
        assert(s.subrange(0, n) =~= p.subrange(0, n));
        assert(s.subrange(n + 1, s.len() as int) =~= p_rest + q);
        if p_rest.len() > 0 {
            assert(p_rest.last() == p.last());
        }
        lemma_lines_concat(p_rest, q);
        assert(lines_of(s) =~= lines_of(p) + lines_of(q));
    }
}

/// A text without a line feed, followed by one, is one line.
pub proof fn lemma_terminated_line(l: Seq<char>)
    requires
        !has_line_break(l),
    ensures
        lines_of(l.push('\n')) == seq![without_carriage_return(l)],
{
    let s = l.push('\n');
    assert forall|j: int| 0 <= j < l.len() implies s[j] != '\n' by {
        assert(s[j] == l[j]);
    }
    lemma_first_line_break_is(s, l.len() as int);
    assert(s.subrange(0, l.len() as int) =~= l);
    assert(s.subrange(l.len() as int + 1, s.len() as int) =~= Seq::<char>::empty());
    assert(lines_of(Seq::<char>::empty()) =~= Seq::<Seq<char>>::empty());
    assert(lines_of(s) =~= seq![without_carriage_return(l)]);
}

/// A text without a line feed is one line if it is not empty, and none if it is.
pub proof fn lemma_unterminated_line(l: Seq<char>)
    requires
        !has_line_break(l),
    ensures
        lines_of(l) == if l.len() == 0 {
            Seq::<Seq<char>>::empty()
        } else {
            seq![l]
        },
{
    lemma_first_line_break_is(l, l.len() as int);
}

/// No line holds a line feed.
pub proof fn lemma_lines_hold_no_line_break(s: Seq<char>)
    ensures
        forall|i: int| 0 <= i < lines_of(s).len() ==> !has_line_break(#[trigger] lines_of(s)[i]),
    decreases s.len(),
{
    if s.len() > 0 {
        lemma_first_line_break(s);
        let n = first_line_break(s);
        if n < s.len() {
            let first = s.subrange(0, n);
            let rest = s.subrange(n + 1, s.len() as int);
            lemma_lines_hold_no_line_break(rest);
            assert(!has_line_break(without_carriage_return(first))) by {
                if has_line_break(without_carriage_return(first)) {
                    let j = choose|j: int|
                        0 <= j < without_carriage_return(first).len() && without_carriage_return(
                            first,
                        )[j] == '\n';
                    assert(s[j] == '\n');
                }
            }
            assert forall|i: int| 0 <= i < lines_of(s).len() implies !has_line_break(
                #[trigger] lines_of(s)[i],
            ) by {
                if i > 0 {
                    assert(lines_of(s)[i] == lines_of(rest)[i - 1]);
                }
            }
        } else {
            assert(!has_line_break(s)) by {
                if has_line_break(s) {
                    let j = choose|j: int| 0 <= j < s.len() && s[j] == '\n';
                    assert(s[j] != '\n');
                }
            }
        }
    }
}

/// Splits a text into its lines.
pub fn split_lines(text: &str) -> (r: Vec<String>)
    ensures
        views(r@) == lines_of(text@),
{
    let chars = chars_of(text);
    let n = chars.len();
    let mut lines: Vec<String> = Vec::new();
    let mut start: usize = 0;
    let mut i: usize = 0;
    proof {
        assert(views(lines@) =~= lines_of(chars@.subrange(0, 0)));
    }
    while i < n
        invariant
            n == chars.len(),
            start <= i <= n,
            start == 0 || chars@[start - 1] == '\n',
            forall|j: int| start <= j < i ==> chars@[j] != '\n',
            views(lines@) == lines_of(chars@.subrange(0, start as int)),
        decreases n - i,
    {
        if chars[i] == '\n' {
            let end = if i > start && chars[i - 1] == '\r' {
                i - 1
            } else {
                i
            };
            let line = string_of(&chars, start, end);
            let ghost before = views(lines@);
            lines.push(line);
            proof {
                let p = chars@.subrange(0, start as int);
                let l = chars@.subrange(start as int, i as int);
                assert(!has_line_break(l));
                lemma_lines_concat(p, l.push('\n'));
                lemma_terminated_line(l);
                assert(p + l.push('\n') =~= chars@.subrange(0, i + 1));
                assert(line@ =~= without_carriage_return(l));
                assert(views(lines@) =~= before.push(line@));
                assert(views(lines@) =~= lines_of(chars@.subrange(0, i + 1)));
            }
            start = i + 1;
        }
        i += 1;
    }
    let ghost before = views(lines@);
    proof {
        let p = chars@.subrange(0, start as int);
        let l = chars@.subrange(start as int, n as int);
        assert(!has_line_break(l));
        lemma_lines_concat(p, l);
        lemma_unterminated_line(l);
        assert(p + l =~= chars@);
    }
    if start < n {
        let line = string_of(&chars, start, n);
        lines.push(line);
        assert(views(lines@) =~= before.push(line@));
    }
    assert(views(lines@) =~= lines_of(text@));
    lines
}

} // verus!
