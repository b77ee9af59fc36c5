use log_aggregator::log_level::LogLevel;
use std::cmp::Ordering;
use std::collections::HashMap;

const ALL: [LogLevel; 6] = [
    LogLevel::Trace,
    LogLevel::Debug,
    LogLevel::Info,
    LogLevel::Warn,
    LogLevel::Error,
    LogLevel::Fatal,
];

#[test]
fn levels_parse_from_their_names() {
    assert_eq!(LogLevel::from_str("TRACE"), Ok(LogLevel::Trace));
    assert_eq!(LogLevel::from_str("DEBUG"), Ok(LogLevel::Debug));
    assert_eq!(LogLevel::from_str("INFO"), Ok(LogLevel::Info));
    assert_eq!(LogLevel::from_str("WARN"), Ok(LogLevel::Warn));
    assert_eq!(LogLevel::from_str("ERROR"), Ok(LogLevel::Error));
    assert_eq!(LogLevel::from_str("FATAL"), Ok(LogLevel::Fatal));
}

#[test]
fn levels_parse_in_any_case() {
    assert_eq!(LogLevel::from_str("error"), Ok(LogLevel::Error));
    assert_eq!(LogLevel::from_str("Error"), Ok(LogLevel::Error));
    assert_eq!(LogLevel::from_str("ERROR"), Ok(LogLevel::Error));
    assert_eq!(LogLevel::from_str("eRrOr"), Ok(LogLevel::Error));
    assert_eq!(LogLevel::from_str("trace"), Ok(LogLevel::Trace));
    assert_eq!(LogLevel::from_str("Debug"), Ok(LogLevel::Debug));
    assert_eq!(LogLevel::from_str("info"), Ok(LogLevel::Info));
    assert_eq!(LogLevel::from_str("wArN"), Ok(LogLevel::Warn));
    assert_eq!(LogLevel::from_str("fatal"), Ok(LogLevel::Fatal));
}

#[test]
fn whitespace_around_a_level_is_ignored() {
    assert_eq!(LogLevel::from_str("  warn "), Ok(LogLevel::Warn));
    assert_eq!(LogLevel::from_str("\tINFO\n"), Ok(LogLevel::Info));
    assert_eq!(LogLevel::from_str("\u{a0}debug\u{3000}"), Ok(LogLevel::Debug));
}

#[test]
fn uppercase_follows_unicode() {
    assert_eq!(LogLevel::from_str("\u{131}nfo"), Ok(LogLevel::Info));
    assert_eq!(
        LogLevel::from_str("ERR\u{d6}R"),
        Err("Invalid log level: ERR\u{d6}R".to_string())
    );
    assert_eq!(
        LogLevel::from_str("\u{17f}"),
        Err("Invalid log level: \u{17f}".to_string())
    );
}

#[test]
fn other_text_is_refused_with_the_text_as_given() {
    assert_eq!(LogLevel::from_str("verbose"), Err("Invalid log level: verbose".to_string()));
    assert_eq!(LogLevel::from_str(" Nope "), Err("Invalid log level:  Nope ".to_string()));
    assert_eq!(LogLevel::from_str(""), Err("Invalid log level: ".to_string()));
    assert_eq!(LogLevel::from_str("WARNING"), Err("Invalid log level: WARNING".to_string()));
    assert_eq!(LogLevel::from_str("INF O"), Err("Invalid log level: INF O".to_string()));
    assert_eq!(LogLevel::from_str("[INFO]"), Err("Invalid log level: [INFO]".to_string()));
}

#[test]
fn levels_parse_through_the_std_trait() {
    let parsed: Result<LogLevel, String> = "fatal".parse();
    assert_eq!(parsed, Ok(LogLevel::Fatal));
    let refused: Result<LogLevel, String> = "loud".parse();
    assert_eq!(refused, Err("Invalid log level: loud".to_string()));
}

#[test]
fn a_name_is_looked_up_exactly() {
    let info: Vec<char> = "INFO".chars().collect();
    assert_eq!(LogLevel::from_name(&info), Some(LogLevel::Info));
    let small: Vec<char> = "info".chars().collect();
    assert_eq!(LogLevel::from_name(&small), None);
    let spaced: Vec<char> = "INFO ".chars().collect();
    assert_eq!(LogLevel::from_name(&spaced), None);
    let short: Vec<char> = "INF".chars().collect();
    assert_eq!(LogLevel::from_name(&short), None);
    assert_eq!(LogLevel::from_name(&[]), None);
    for level in ALL {
        let name: Vec<char> = level.as_str().chars().collect();
        assert_eq!(LogLevel::from_name(&name), Some(level));
    }
}

#[test]
fn levels_are_written_in_capitals() {
    assert_eq!(LogLevel::Trace.to_string(), "TRACE");
    assert_eq!(LogLevel::Debug.to_string(), "DEBUG");
    assert_eq!(LogLevel::Info.to_string(), "INFO");
    assert_eq!(LogLevel::Warn.to_string(), "WARN");
    assert_eq!(LogLevel::Error.to_string(), "ERROR");
    assert_eq!(LogLevel::Fatal.to_string(), "FATAL");
    assert_eq!(LogLevel::Warn.as_str(), "WARN");
}

#[test]
fn levels_round_trip_through_text() {
    for level in ALL {
        assert_eq!(LogLevel::from_str(&level.to_string()), Ok(level));
        assert_eq!(LogLevel::from_str(&level.to_string().to_lowercase()), Ok(level));
    }
}

#[test]
fn ranks_run_from_zero_to_five() {
    assert_eq!(LogLevel::Trace.rank(), 0);
    assert_eq!(LogLevel::Debug.rank(), 1);
    assert_eq!(LogLevel::Info.rank(), 2);
    assert_eq!(LogLevel::Warn.rank(), 3);
    assert_eq!(LogLevel::Error.rank(), 4);
    assert_eq!(LogLevel::Fatal.rank(), 5);
}

#[test]
fn levels_are_strictly_ordered() {
    assert!(LogLevel::Trace < LogLevel::Debug);
    assert!(LogLevel::Debug < LogLevel::Info);
    assert!(LogLevel::Info < LogLevel::Warn);
    assert!(LogLevel::Warn < LogLevel::Error);
    assert!(LogLevel::Error < LogLevel::Fatal);
    for i in 0..ALL.len() {
        for j in 0..ALL.len() {
            assert_eq!(ALL[i] < ALL[j], i < j);
            assert_eq!(ALL[i] >= ALL[j], i >= j);
            assert_eq!(ALL[i] == ALL[j], i == j);
            assert_eq!(ALL[i].cmp(&ALL[j]), i.cmp(&j));
            assert_eq!(Ord::cmp(&ALL[i], &ALL[j]), i.cmp(&j));
            assert_eq!(ALL[i].partial_cmp(&ALL[j]), Some(i.cmp(&j)));
        }
    }
    assert_eq!(LogLevel::Error.cmp(&LogLevel::Warn), Ordering::Greater);
}

#[test]
fn levels_serve_as_keys() {
    let mut seen: HashMap<LogLevel, usize> = HashMap::new();
    for level in [LogLevel::Info, LogLevel::Error, LogLevel::Info] {
        *seen.entry(level).or_insert(0) += 1;
    }
    assert_eq!(seen.get(&LogLevel::Info), Some(&2));
    assert_eq!(seen.get(&LogLevel::Error), Some(&1));
    assert_eq!(seen.get(&LogLevel::Warn), None);
}
