//! The severity of a log record: six levels, ranked from the most verbose to
//! the most serious.

use std::cmp::Ordering;
use vstd::prelude::*;
use vstd::std_specs::cmp::PartialOrdSpecImpl;
use crate::text::{
    ascii_uppercase,
    chars_of,
    is_ascii_text,
    lemma_trim_nothing,
    push_chars,
    spells,
    to_uppercase,
    trim,
    trim_chars,
    uppercase,
    CharClass,
};

verus! {

/// How serious a record is. The levels are declared in the order of their
/// ranks.
#[derive(Debug, Clone, Copy, PartialEq, Eq, Hash, Structural, Ord)]
pub enum LogLevel {
    Trace,
    Debug,
    Info,
    Warn,
    Error,
    Fatal,
}

impl LogLevel {
    /// The rank of the level: 0 for the most verbose, 5 for the most serious.
    pub open spec fn rank_of(self) -> nat {
        match self {
            LogLevel::Trace => 0,
            LogLevel::Debug => 1,
            LogLevel::Info => 2,
            LogLevel::Warn => 3,
            LogLevel::Error => 4,
            LogLevel::Fatal => 5,
        }
    }

    /// The canonical name of the level, in capitals.
    pub open spec fn name(self) -> Seq<char> {
        match self {
            LogLevel::Trace => "TRACE"@,
            LogLevel::Debug => "DEBUG"@,
            LogLevel::Info => "INFO"@,
            LogLevel::Warn => "WARN"@,
            LogLevel::Error => "ERROR"@,
            LogLevel::Fatal => "FATAL"@,
        }
    }

    /// The level whose canonical name is exactly `text`, if there is one.
    pub open spec fn named(text: Seq<char>) -> Option<LogLevel> {
        if text == "TRACE"@ {
            Some(LogLevel::Trace)
        } else if text == "DEBUG"@ {
            Some(LogLevel::Debug)
        } else if text == "INFO"@ {
            Some(LogLevel::Info)
        } else if text == "WARN"@ {
            Some(LogLevel::Warn)
        } else if text == "ERROR"@ {
            Some(LogLevel::Error)
        } else if text == "FATAL"@ {
            Some(LogLevel::Fatal)
        } else {
            None
        }
    }

    /// What a piece of text denotes as a level: the level whose name is the
    /// text in uppercase, whitespace around it set aside. Any other text is
    /// refused with a message that quotes it as it was given.
    pub open spec fn parse(s: Seq<char>) -> Result<LogLevel, Seq<char>> {
        match LogLevel::named(uppercase(trim(s))) {
            Some(level) => Ok(level),
            None => Err("Invalid log level: "@ + s),
        }
    }

    /// How `self` stands to `other`: as their ranks do.
    pub open spec fn order(self, other: LogLevel) -> Ordering {
        if self.rank_of() < other.rank_of() {
            Ordering::Less
        } else if self.rank_of() > other.rank_of() {
            Ordering::Greater
        } else {
            Ordering::Equal
        }
    }

    /// The rank of the level as a number.
    pub fn rank(&self) -> (r: u8)
        ensures
            r == self.rank_of(),
    {
        match self {
            LogLevel::Trace => 0,
            LogLevel::Debug => 1,
            LogLevel::Info => 2,
            LogLevel::Warn => 3,
            LogLevel::Error => 4,
            LogLevel::Fatal => 5,
        }
    }

    /// Compares two levels by rank.
    pub fn cmp(&self, other: &LogLevel) -> (r: Ordering)
        ensures
            r == self.order(*other),
    {
        let a = self.rank();
        let b = other.rank();
        if a < b {
            Ordering::Less
        } else if a > b {
            Ordering::Greater
        } else {
            Ordering::Equal
        }
    }

    /// The canonical name of the level.
    pub fn as_str(&self) -> (r: &'static str)
        ensures
            r@ == self.name(),
    {
        match self {
            LogLevel::Trace => "TRACE",
            LogLevel::Debug => "DEBUG",
            LogLevel::Info => "INFO",
            LogLevel::Warn => "WARN",
            LogLevel::Error => "ERROR",
            LogLevel::Fatal => "FATAL",
        }
    }

    /// The canonical name of the level as an owned string.
    pub fn to_string(&self) -> (r: String)
        ensures
            r@ == self.name(),
    {
        self.as_str().to_string()
    }

    /// Looks up the level that has `name` as its canonical name.
    pub fn from_name(name: &[char]) -> (r: Option<LogLevel>)
        ensures
            r == LogLevel::named(name@),
    {
        if spells(name, "TRACE") {
            Some(LogLevel::Trace)
        } else if spells(name, "DEBUG") {
            Some(LogLevel::Debug)
        } else if spells(name, "INFO") {
            Some(LogLevel::Info)
        } else if spells(name, "WARN") {
            Some(LogLevel::Warn)
        } else if spells(name, "ERROR") {
            Some(LogLevel::Error)
        } else if spells(name, "FATAL") {
            Some(LogLevel::Fatal)
        } else {
            None
        }
    }

    /// Reads a level from the characters `cs`.
    pub fn from_chars(cs: &[char]) -> (r: Result<LogLevel, String>)
        ensures
            match r {
                Ok(level) => LogLevel::parse(cs@) == Ok::<LogLevel, Seq<char>>(level),
                Err(reason) => LogLevel::parse(cs@) == Err::<LogLevel, Seq<char>>(reason@),
            },
    {
        let upper = to_uppercase(trim_chars(cs, CharClass::Whitespace));
        match LogLevel::from_name(upper.as_slice()) {
            Some(level) => Ok(level),
            None => {
                let mut reason = "Invalid log level: ".to_string();
                push_chars(&mut reason, cs);
                Err(reason)
            },
        }
    }

    /// Reads a level from text, whatever its case.
    pub fn from_str(s: &str) -> (r: Result<LogLevel, String>)
        ensures
            match r {
                Ok(level) => LogLevel::parse(s@) == Ok::<LogLevel, Seq<char>>(level),
                Err(reason) => LogLevel::parse(s@) == Err::<LogLevel, Seq<char>>(reason@),
            },
    {
        let cs = chars_of(s);
        LogLevel::from_chars(cs.as_slice())
    }
}

impl std::str::FromStr for LogLevel {
    type Err = String;

    fn from_str(s: &str) -> (r: Result<LogLevel, String>)
        ensures
            match r {
                Ok(level) => LogLevel::parse(s@) == Ok::<LogLevel, Seq<char>>(level),
                Err(reason) => LogLevel::parse(s@) == Err::<LogLevel, Seq<char>>(reason@),
            },
    {
        LogLevel::from_str(s)
    }
}

impl PartialOrdSpecImpl for LogLevel {
    open spec fn obeys_partial_cmp_spec() -> bool {
        true
    }

    /// Levels are ordered by rank alone.
    open spec fn partial_cmp_spec(&self, other: &LogLevel) -> Option<Ordering> {
        Some(self.order(*other))
    }
}

impl PartialOrd for LogLevel {
    fn partial_cmp(&self, other: &LogLevel) -> (r: Option<Ordering>) {
        Some(self.cmp(other))
    }
}

/// The levels stand in one strict order, from `Trace` up to `Fatal`; two
/// levels of the same rank are the same level.
pub proof fn lemma_levels_ascend(a: LogLevel, b: LogLevel)
    ensures
        LogLevel::Trace.order(LogLevel::Debug) == Ordering::Less,
        LogLevel::Debug.order(LogLevel::Info) == Ordering::Less,
        LogLevel::Info.order(LogLevel::Warn) == Ordering::Less,
        LogLevel::Warn.order(LogLevel::Error) == Ordering::Less,
        LogLevel::Error.order(LogLevel::Fatal) == Ordering::Less,
        a.order(b) == Ordering::Less <==> a.rank_of() < b.rank_of(),
        a.order(b) == Ordering::Equal <==> a == b,
        a.order(b) == Ordering::Less <==> b.order(a) == Ordering::Greater,
{
}

/// No two levels share a name, so a canonical name denotes its own level.
pub proof fn lemma_names_differ(level: LogLevel)
    ensures
        LogLevel::named(level.name()) == Some(level),
        is_ascii_text(level.name()),
        ascii_uppercase(level.name()) == level.name(),
        trim(level.name()) == level.name(),
{
    reveal_strlit("TRACE");
    reveal_strlit("DEBUG");
    reveal_strlit("INFO");
    reveal_strlit("WARN");
    reveal_strlit("ERROR");
    reveal_strlit("FATAL");
    let name = level.name();
    lemma_trim_nothing(name);
}

/// The text that a level is written as reads back as that level.
pub proof fn lemma_name_parses_back(level: LogLevel)
    ensures
        LogLevel::parse(level.name()) == Ok::<LogLevel, Seq<char>>(level),
{
    lemma_names_differ(level);
}

/// Reading a level ignores the case of ASCII letters and the whitespace
/// around the text: whatever spells the name of a level once it is trimmed
/// and capitalised denotes that level.
pub proof fn lemma_parse_ignores_case(s: Seq<char>, level: LogLevel)
    requires
        is_ascii_text(trim(s)),
        ascii_uppercase(trim(s)) == level.name(),
    ensures
        LogLevel::parse(s) == Ok::<LogLevel, Seq<char>>(level),
{
    lemma_names_differ(level);
}

} // verus!
