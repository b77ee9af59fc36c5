//! One log record, and the grammar of the line that a record is read from:
//! `YYYY-MM-DD HH:MM:SS [LEVEL] component: message`.

use std::path::PathBuf;
use vstd::prelude::*;
use vstd::slice::slice_subrange;
use crate::datetime::DateTime;
use crate::error::ParseError;
use crate::log_level::LogLevel;
use crate::text::{
    chars_of,
    count_leading,
    joined,
    lemma_leading_run,
    lemma_splitn_len,
    pieces,
    position,
    splitn,
    splitn_slice,
    string_of,
    trim,
    trim_chars,
    CharClass,
};

verus! {

/// A parsed line of a log.
#[derive(Debug)]
pub struct LogEntry {
    pub timestamp: DateTime,
    pub level: LogLevel,
    pub component: String,
    pub message: String,
    pub source_file: PathBuf,
}

/// What a log entry holds: its five fields, the two texts as sequences of
/// characters.
pub struct Record {
    pub timestamp: DateTime,
    pub level: LogLevel,
    pub component: Seq<char>,
    pub message: Seq<char>,
    pub source_file: PathBuf,
}

impl View for LogEntry {
    type V = Record;

    open spec fn view(&self) -> Record {
        Record {
            timestamp: self.timestamp,
            level: self.level,
            component: self.component@,
            message: self.message@,
            source_file: self.source_file,
        }
    }
}

/// The component and the message in what follows the level: the text before
/// the first colon and the text after it, each without the whitespace around
/// it. Without a colon there is no message.
pub open spec fn component_and_message(
    timestamp: DateTime,
    level: LogLevel,
    text: Seq<char>,
    file: PathBuf,
) -> Result<Record, Seq<char>> {
    let pair = splitn(text, 2, ':');
    if pair.len() < 2 {
        Err("Missing message"@)
    } else {
        Ok(
            Record {
                timestamp,
                level,
                component: trim(pair[0]),
                message: trim(pair[1]),
                source_file: file,
            },
        )
    }
}

/// What follows the timestamp: the level between square brackets at the very
/// start, then the component and the message.
pub open spec fn level_and_rest(timestamp: DateTime, rest: Seq<char>, file: PathBuf) -> Result<
    Record,
    Seq<char>,
> {
    let closing = position(rest, ']');
    if rest.len() == 0 || rest[0] != '[' {
        Err("Missing log level"@)
    } else if closing >= rest.len() {
        Err("Unclosed log level bracket"@)
    } else {
        match LogLevel::parse(rest.subrange(1, closing as int)) {
            Err(reason) => Err(reason),
            Ok(level) => component_and_message(
                timestamp,
                level,
                trim(rest.skip(closing as int + 1)),
                file,
            ),
        }
    }
}

/// What the three fields of a line denote: the date and the time, joined by
/// one space, are the timestamp; the rest, without the whitespace around it,
/// holds the level, the component and the message.
pub open spec fn record_of_fields(
    date: Seq<char>,
    time: Seq<char>,
    rest: Seq<char>,
    file: PathBuf,
) -> Result<Record, Seq<char>> {
    match DateTime::parse(date + seq![' '] + time) {
        Err(reason) => Err(reason),
        Ok(timestamp) => level_and_rest(timestamp, trim(rest), file),
    }
}

impl LogEntry {
    /// What a line read from `file` denotes. Whitespace around the line is set
    /// aside, and a line with nothing else is empty. The line is cut at its
    /// first two single spaces into the date, the time and the rest; a line
    /// that ends before the time, or before the rest, is refused with the
    /// name of what is missing. The three fields are read as in every line.
    pub open spec fn parse_spec(line: Seq<char>, file: PathBuf) -> Result<Record, Seq<char>> {
        let parts = splitn(trim(line), 3, ' ');
        if trim(line).len() == 0 {
            Err("Empty line"@)
        } else if parts.len() < 2 {
            Err("Missing time"@)
        } else if parts.len() < 3 {
            Err("Missing log level and message"@)
        } else {
            record_of_fields(parts[0], parts[1], parts[2], file)
        }
    }

    /// Reads a record from `line`, which was found at `line_number` in
    /// `source_file`.
    pub fn parse(line: &str, source_file: &PathBuf, line_number: usize) -> (r: Result<
        LogEntry,
        ParseError,
    >)
        ensures
            match r {
                Ok(entry) => LogEntry::parse_spec(line@, *source_file) == Ok::<Record, Seq<char>>(
                    entry@,
                ),
                Err(e) => LogEntry::parse_spec(line@, *source_file) == Err::<Record, Seq<char>>(
                    e.reason@,
                ) && e.reports(*source_file, line_number, line@, e.reason@),
            },
    {
        let cs = chars_of(line);
        let trimmed = trim_chars(cs.as_slice(), CharClass::Whitespace);
        if trimmed.len() == 0 {
            return Err(ParseError::new(source_file, line_number, line, "Empty line".to_string()));
        }
        let parts = splitn_slice(trimmed, 3, ' ');
        proof {
            lemma_splitn_len(trimmed@, 3, ' ');
        }
        if parts.len() < 2 {
            return Err(ParseError::new(source_file, line_number, line, "Missing time".to_string()));
        }
        if parts.len() < 3 {
            return Err(
                ParseError::new(
                    source_file,
                    line_number,
                    line,
                    "Missing log level and message".to_string(),
                ),
            );
        }
        assert(pieces(parts@)[0] == parts@[0]@ && pieces(parts@)[1] == parts@[1]@ && pieces(
            parts@,
        )[2] == parts@[2]@);
        read_fields(parts[0], parts[1], parts[2], line, source_file, line_number)
    }
}

/// Reads a record from the three fields of `line`.
pub fn read_fields(
    date: &[char],
    time: &[char],
    rest: &[char],
    line: &str,
    source_file: &PathBuf,
    line_number: usize,
) -> (r: Result<LogEntry, ParseError>)
    ensures
        match r {
            Ok(entry) => record_of_fields(date@, time@, rest@, *source_file) == Ok::<
                Record,
                Seq<char>,
            >(entry@),
            Err(e) => record_of_fields(date@, time@, rest@, *source_file) == Err::<
                Record,
                Seq<char>,
            >(e.reason@) && e.reports(*source_file, line_number, line@, e.reason@),
        },
{
    let stamp = joined(date, ' ', time);
    let timestamp = match DateTime::from_chars(stamp.as_slice()) {
        Ok(t) => t,
        Err(reason) => {
            return Err(ParseError::new(source_file, line_number, line, reason));
        },
    };
    read_level_and_rest(
        timestamp,
        trim_chars(rest, CharClass::Whitespace),
        line,
        source_file,
        line_number,
    )
}

/// Reads the level, the component and the message from `rest`, the part of
/// `line` that follows the timestamp, and completes the record.
pub fn read_level_and_rest(
    timestamp: DateTime,
    rest: &[char],
    line: &str,
    source_file: &PathBuf,
    line_number: usize,
) -> (r: Result<LogEntry, ParseError>)
    ensures
        match r {
            Ok(entry) => level_and_rest(timestamp, rest@, *source_file) == Ok::<Record, Seq<char>>(
                entry@,
            ),
            Err(e) => level_and_rest(timestamp, rest@, *source_file) == Err::<Record, Seq<char>>(
                e.reason@,
            ) && e.reports(*source_file, line_number, line@, e.reason@),
        },
{
    if rest.len() == 0 || rest[0] != '[' {
        return Err(
            ParseError::new(source_file, line_number, line, "Missing log level".to_string()),
        );
    }
    let closing = count_leading(rest, CharClass::Except(']'));
    if closing >= rest.len() {
        return Err(
            ParseError::new(
                source_file,
                line_number,
                line,
                "Unclosed log level bracket".to_string(),
            ),
        );
    }
    proof {
        // The closing bracket does not stand where the opening one does.
        lemma_leading_run(rest@, CharClass::Except(']'));
        assert(closing >= 1);
    }
    let level = match LogLevel::from_chars(slice_subrange(rest, 1, closing)) {
        Ok(l) => l,
        Err(reason) => {
            return Err(ParseError::new(source_file, line_number, line, reason));
        },
    };
    let after = trim_chars(slice_subrange(rest, closing + 1, rest.len()), CharClass::Whitespace);
    read_component_and_message(timestamp, level, after, line, source_file, line_number)
}

/// Reads the component and the message from `text`, the part of `line` that
/// follows the level, and completes the record.
pub fn read_component_and_message(
    timestamp: DateTime,
    level: LogLevel,
    text: &[char],
    line: &str,
    source_file: &PathBuf,
    line_number: usize,
) -> (r: Result<LogEntry, ParseError>)
    ensures
        match r {
            Ok(entry) => component_and_message(timestamp, level, text@, *source_file) == Ok::<
                Record,
                Seq<char>,
            >(entry@),
            Err(e) => component_and_message(timestamp, level, text@, *source_file) == Err::<
                Record,
                Seq<char>,
            >(e.reason@) && e.reports(*source_file, line_number, line@, e.reason@),
        },
{
    let pair = splitn_slice(text, 2, ':');
    proof {
        lemma_splitn_len(text@, 2, ':');
    }
    if pair.len() < 2 {
        return Err(ParseError::new(source_file, line_number, line, "Missing message".to_string()));
    }
    assert(pieces(pair@)[0] == pair@[0]@ && pieces(pair@)[1] == pair@[1]@);
    Ok(
        LogEntry {
            timestamp,
            level,
            component: string_of(trim_chars(pair[0], CharClass::Whitespace)),
            message: string_of(trim_chars(pair[1], CharClass::Whitespace)),
            source_file: source_file.clone(),
        },
    )
}

} // verus!
