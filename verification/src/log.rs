//! The change log: one entry per match, in the order of the matches.

use crate::engine::MatchRecord;
use crate::text::{decimal, join_lines, joined, push_decimal, views};
use vstd::prelude::*;
use vstd::string::StringExecFns;

verus! {

/// What an entry begins with, before the offset.
pub const POSITION_LABEL: &'static str = "Position: ";

/// What stands between the offset and the matched text.
pub const MATCHED_LABEL: &'static str = ", Matched: ";

/// The log entry of a match: its offset in decimal and the text it covered.
pub open spec fn log_entry(record: MatchRecord) -> Seq<char> {
    POSITION_LABEL@ + decimal(record.offset as nat) + MATCHED_LABEL@ + record.matched_text@
}

/// The log entries of the matches, in order.
pub open spec fn log_entries(records: Seq<MatchRecord>) -> Seq<Seq<char>> {
    records.map_values(|record: MatchRecord| log_entry(record))
}

/// Formats the log entry of one match.
pub fn format_entry(record: &MatchRecord) -> (r: String)
    ensures
        r@ == log_entry(*record),
{
    let mut out = String::from_str(POSITION_LABEL);
    push_decimal(&mut out, record.offset);
    out.append(MATCHED_LABEL);
    out.append(record.matched_text.as_str());
    out
}

/// Formats the log of the matches: their entries, joined by line breaks.
pub fn format_log(records: &Vec<MatchRecord>) -> (r: String)
    ensures
        r@ == joined(log_entries(records@)),
{
    let mut entries: Vec<String> = Vec::new();
    let mut i: usize = 0;
    while i < records.len()
        invariant
            i <= records.len(),
            views(entries@) == log_entries(records@.take(i as int)),
        decreases records.len() - i,
    {
        let ghost before = views(entries@);
        let entry = format_entry(&records[i]);
        let ghost text = entry@;
        entries.push(entry);
        i += 1;
        proof {
            let wanted = log_entries(records@.take(i as int));
            assert(views(entries@) =~= before.push(text));
            assert(wanted.drop_last() =~= log_entries(records@.take(i - 1)));
            assert(wanted.last() == text);
            assert(views(entries@) =~= wanted);
        }
    }
    assert(records@.take(i as int) =~= records@);
    assert(views(entries@).take(entries.len() as int) =~= views(entries@));
    join_lines(&entries, entries.len())
}

} // verus!
