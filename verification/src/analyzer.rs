//! Holds the records and the refused lines of a run, and summarizes the
//! records.

use vstd::prelude::*;
use crate::error::ParseError;
use crate::log_entry::LogEntry;
use crate::statistics::Statistics;

verus! {

/// The records and the refused lines of one run.
pub struct LogAnalyzer {
    entries: Vec<LogEntry>,
    errors: Vec<ParseError>,
}

impl LogAnalyzer {
    /// The records that the analyzer holds, in order.
    pub closed spec fn held_entries(&self) -> Seq<LogEntry> {
        self.entries@
    }

    /// The refused lines that the analyzer holds, in order.
    pub closed spec fn held_errors(&self) -> Seq<ParseError> {
        self.errors@
    }

    /// An analyzer that holds nothing.
    pub fn new() -> (analyzer: LogAnalyzer)
        ensures
            analyzer.held_entries().len() == 0,
            analyzer.held_errors().len() == 0,
    {
        LogAnalyzer { entries: Vec::new(), errors: Vec::new() }
    }

    /// The records, in the order in which they were taken in.
    pub fn entries(&self) -> (r: &[LogEntry])
        ensures
            r@ == self.held_entries(),
    {
        self.entries.as_slice()
    }

    /// The refused lines, in the order in which they were met.
    pub fn parse_errors(&self) -> (r: &[ParseError])
        ensures
            r@ == self.held_errors(),
    {
        self.errors.as_slice()
    }

    /// The statistics of the records that the analyzer holds.
    pub fn statistics(&self) -> (stats: Statistics)
        ensures
            stats.summarizes(self.held_entries()),
            stats.is_well_formed(),
    {
        Statistics::from_entries(self.entries.as_slice())
    }
}

} // verus!
