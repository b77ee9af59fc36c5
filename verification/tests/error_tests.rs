use log_aggregator::error::{AnalyzerError, ParseError};
use std::io;
use std::path::PathBuf;

#[test]
fn a_parse_error_keeps_what_it_is_given() {
    let error = ParseError::new(&PathBuf::from("a/b.log"), 12, " some line ", "Why".to_string());
    assert_eq!(error.file, PathBuf::from("a/b.log"));
    assert_eq!(error.line_number, 12);
    assert_eq!(error.content, " some line ");
    assert_eq!(error.reason, "Why");
}

#[test]
fn analyzer_errors_carry_their_paths() {
    let unreadable = AnalyzerError::IoError {
        path: PathBuf::from("gone.log"),
        source: io::Error::new(io::ErrorKind::NotFound, "gone"),
    };
    match unreadable {
        AnalyzerError::IoError { path, source } => {
            assert_eq!(path, PathBuf::from("gone.log"));
            assert_eq!(source.kind(), io::ErrorKind::NotFound);
        }
        _ => panic!("not an I/O error"),
    }
    let empty = AnalyzerError::NoFilesFound { path: PathBuf::from("logs") };
    assert!(matches!(empty, AnalyzerError::NoFilesFound { path } if path == PathBuf::from("logs")));
    let odd = AnalyzerError::InvalidPath {
        path: PathBuf::from("/dev/null"),
        reason: "neither a file nor a directory".to_string(),
    };
    match odd {
        AnalyzerError::InvalidPath { path, reason } => {
            assert_eq!(path, PathBuf::from("/dev/null"));
            assert_eq!(reason, "neither a file nor a directory");
        }
        _ => panic!("not an invalid path"),
    }
}
