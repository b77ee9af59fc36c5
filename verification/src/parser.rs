//! Reading one line of a log into a record.

use std::path::PathBuf;
use vstd::prelude::*;
use crate::error::ParseError;
use crate::log_entry::{read_fields, record_of_fields, LogEntry, Record};
use crate::text::{
    chars_of,
    lemma_splitn_len,
    pieces,
    splitn,
    splitn_slice,
    trim,
    trim_chars,
    CharClass,
};

verus! {

/// What a line read from `file` denotes. Whitespace around the line is set
/// aside, and a line with nothing else is empty. The line is cut at its first
/// two single spaces into the date, the time and the rest, and is malformed
/// if it has fewer than these three fields. The date and the time are the
/// timestamp; the rest holds the level between square brackets, then the
/// component and, after the first colon, the message. The failures come in
/// this order.
pub open spec fn parse_log_line_spec(line: Seq<char>, file: PathBuf) -> Result<Record, Seq<char>> {
    let parts = splitn(trim(line), 3, ' ');
    if trim(line).len() == 0 {
        Err("Empty line"@)
    } else if parts.len() < 3 {
        Err("Malformed log line"@)
    } else {
        record_of_fields(parts[0], parts[1], parts[2], file)
    }
}

/// Reads a record from `line`, which was found at `line_number` in
/// `source_file`.
pub fn parse_log_line(line: &str, source_file: &PathBuf, line_number: usize) -> (r: Result<
    LogEntry,
    ParseError,
>)
    ensures
        match r {
            Ok(entry) => parse_log_line_spec(line@, *source_file) == Ok::<Record, Seq<char>>(
                entry@,
            ),
            Err(e) => parse_log_line_spec(line@, *source_file) == Err::<Record, Seq<char>>(
                e.reason@,
            ) && e.reports(*source_file, line_number, line@, e.reason@),
        },
{
    let cs = chars_of(line);
    let trimmed = trim_chars(cs.as_slice(), CharClass::Whitespace);
    if trimmed.len() == 0 {
        return Err(ParseError::new(source_file, line_number, line, "Empty line".to_string()));
    }
    let parts = splitn_slice(trimmed, 3, ' ');
    proof {
        lemma_splitn_len(trimmed@, 3, ' ');
    }
    if parts.len() < 3 {
        return Err(
            ParseError::new(source_file, line_number, line, "Malformed log line".to_string()),
        );
    }
    assert(pieces(parts@)[0] == parts@[0]@ && pieces(parts@)[1] == parts@[1]@ && pieces(parts@)[2]
        == parts@[2]@);
    read_fields(parts[0], parts[1], parts[2], line, source_file, line_number)
}

} // verus!
