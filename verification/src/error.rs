//! What can go wrong: a line that does not parse, and the failures of the
//! layer that finds and reads the files.

use std::path::PathBuf;
use vstd::prelude::*;

verus! {

/// `std::path::PathBuf`, a path that owns its text. Nothing here looks inside
/// one: a path is taken from the caller and handed back in a record or an
/// error.
#[verifier::external_type_specification]
#[verifier::external_body]
pub struct ExPathBuf(PathBuf);

/// `std::io::Error`, as the operating system reports it.
#[verifier::external_type_specification]
#[verifier::external_body]
pub struct ExIoError(std::io::Error);

/// `PathBuf::clone` gives a path equal to the one it was called on.
pub assume_specification[ <PathBuf as Clone>::clone ](path: &PathBuf) -> (copy: PathBuf)
    ensures
        copy == *path,
;

/// A failure outside the parsing of lines.
#[derive(Debug)]
pub enum AnalyzerError {
    IoError { path: PathBuf, source: std::io::Error },
    NoFilesFound { path: PathBuf },
    InvalidPath { path: PathBuf, reason: String },
}

/// A line that is no log record: where it stands, what it holds, and why it
/// was refused.
#[derive(Debug)]
pub struct ParseError {
    pub file: PathBuf,
    pub line_number: usize,
    pub content: String,
    pub reason: String,
}

impl ParseError {
    /// Whether the error reports `reason` for the line `content`, found at
    /// `line_number` in `file`.
    pub open spec fn reports(
        self,
        file: PathBuf,
        line_number: usize,
        content: Seq<char>,
        reason: Seq<char>,
    ) -> bool {
        &&& self.file == file
        &&& self.line_number == line_number
        &&& self.content@ == content
        &&& self.reason@ == reason
    }

    /// The error that reports `reason` for the line `content`.
    pub fn new(file: &PathBuf, line_number: usize, content: &str, reason: String) -> (e: ParseError)
        ensures
            e.reports(*file, line_number, content@, reason@),
    {
        ParseError { file: file.clone(), line_number, content: content.to_string(), reason }
    }
}

} // verus!
