use log_aggregator::analyzer::LogAnalyzer;
use log_aggregator::datetime::DateTime;
use log_aggregator::log_entry::LogEntry;
use log_aggregator::log_level::LogLevel;
use log_aggregator::parser::parse_log_line;
use log_aggregator::statistics::{Ratio, Statistics};
use std::path::PathBuf;

fn record(timestamp: &str, level: LogLevel, component: &str) -> LogEntry {
    LogEntry {
        timestamp: DateTime::from_str(timestamp).unwrap(),
        level,
        component: component.to_string(),
        message: "m".to_string(),
        source_file: PathBuf::from("test.log"),
    }
}

fn rate(ratio: Ratio) -> f64 {
    ratio.numerator as f64 / ratio.denominator as f64
}

#[test]
fn no_records_give_empty_statistics() {
    let stats = Statistics::from_entries(&[]);
    assert_eq!(stats.total_entries, 0);
    assert_eq!(stats.error_count, 0);
    assert_eq!(stats.error_rate, Ratio { numerator: 0, denominator: 1 });
    assert_eq!(rate(stats.error_rate), 0.0);
    assert!(stats.entries_by_level.is_empty());
    assert!(stats.entries_by_component.is_empty());
    assert!(stats.entries_by_hour.is_empty());
    assert_eq!(stats.most_active_component, None);
    assert_eq!(stats.peak_hour, None);
    assert_eq!(stats.first_entry, None);
    assert_eq!(stats.last_entry, None);
}

#[test]
fn records_that_are_all_errors_give_a_rate_of_one() {
    for n in 1..6usize {
        let mut entries = Vec::new();
        for i in 0..n {
            entries.push(record("2024-01-01 09:00:00", LogLevel::Error, &format!("c{}", i)));
        }
        let stats = Statistics::from_entries(&entries);
        assert_eq!(stats.total_entries, n);
        assert_eq!(stats.error_count, n);
        assert_eq!(stats.error_rate, Ratio { numerator: n, denominator: n });
        assert_eq!(rate(stats.error_rate), 1.0);
        assert_eq!(stats.entries_by_level, vec![(LogLevel::Error, n)]);
    }
}

#[test]
fn the_error_rate_is_the_share_of_errors() {
    let entries = vec![
        record("2024-01-01 09:00:00", LogLevel::Info, "a"),
        record("2024-01-01 09:00:01", LogLevel::Error, "a"),
        record("2024-01-01 09:00:02", LogLevel::Fatal, "a"),
        record("2024-01-01 09:00:03", LogLevel::Warn, "a"),
    ];
    let stats = Statistics::from_entries(&entries);
    assert_eq!(stats.error_count, 1);
    assert_eq!(stats.error_rate, Ratio { numerator: 1, denominator: 4 });
    assert_eq!(rate(stats.error_rate), 0.25);
    let calm = Statistics::from_entries(&entries[..1]);
    assert_eq!(calm.error_count, 0);
    assert_eq!(calm.error_rate, Ratio { numerator: 0, denominator: 1 });
    assert_eq!(rate(calm.error_rate), 0.0);
}

#[test]
fn first_and_last_do_not_depend_on_the_order() {
    let t1 = "2024-01-01 09:00:00";
    let t2 = "2024-01-01 10:00:00";
    let t3 = "2024-03-01 08:00:00";
    let orders = [
        [t1, t2, t3],
        [t1, t3, t2],
        [t2, t1, t3],
        [t2, t3, t1],
        [t3, t1, t2],
        [t3, t2, t1],
    ];
    for order in orders {
        let entries: Vec<LogEntry> =
            order.iter().map(|t| record(t, LogLevel::Info, "app")).collect();
        let stats = Statistics::from_entries(&entries);
        assert_eq!(stats.first_entry, Some(DateTime::from_str(t1).unwrap()));
        assert_eq!(stats.last_entry, Some(DateTime::from_str(t3).unwrap()));
    }
}

#[test]
fn one_record_is_both_first_and_last() {
    let stats = Statistics::from_entries(&[record("2024-05-05 05:05:05", LogLevel::Debug, "x")]);
    let only = DateTime::from_str("2024-05-05 05:05:05").unwrap();
    assert_eq!(stats.first_entry, Some(only));
    assert_eq!(stats.last_entry, Some(only));
    assert_eq!(stats.most_active_component, Some("x".to_string()));
    assert_eq!(stats.peak_hour, Some(5));
}

#[test]
fn records_are_counted_by_level_component_and_hour() {
    let entries = vec![
        record("2024-01-01 09:10:00", LogLevel::Info, "web"),
        record("2024-01-01 09:20:00", LogLevel::Error, "db"),
        record("2024-01-01 10:00:00", LogLevel::Info, "web"),
        record("2024-01-02 09:00:00", LogLevel::Warn, "auth"),
        record("2024-01-02 23:59:59", LogLevel::Info, "db"),
        record("2024-01-03 09:00:00", LogLevel::Error, "web"),
    ];
    let stats = Statistics::from_entries(&entries);
    assert_eq!(stats.total_entries, 6);
    assert_eq!(
        stats.entries_by_level,
        vec![(LogLevel::Info, 3), (LogLevel::Error, 2), (LogLevel::Warn, 1)]
    );
    assert_eq!(
        stats.entries_by_component,
        vec![("web".to_string(), 3), ("db".to_string(), 2), ("auth".to_string(), 1)]
    );
    assert_eq!(stats.entries_by_hour.len(), 3);
    assert_eq!(stats.entries_by_hour.get(&9), Some(&4));
    assert_eq!(stats.entries_by_hour.get(&10), Some(&1));
    assert_eq!(stats.entries_by_hour.get(&23), Some(&1));
    assert_eq!(stats.entries_by_hour.get(&0), None);
    assert_eq!(stats.error_count, 2);
    assert_eq!(stats.error_rate, Ratio { numerator: 2, denominator: 6 });
    assert_eq!(stats.most_active_component, Some("web".to_string()));
    assert_eq!(stats.peak_hour, Some(9));
    assert_eq!(stats.first_entry, Some(DateTime::from_str("2024-01-01 09:10:00").unwrap()));
    assert_eq!(stats.last_entry, Some(DateTime::from_str("2024-01-03 09:00:00").unwrap()));
}

#[test]
fn components_are_told_apart_by_their_exact_text() {
    let entries = vec![
        record("2024-01-01 09:00:00", LogLevel::Info, "Web"),
        record("2024-01-01 09:00:00", LogLevel::Info, "web"),
        record("2024-01-01 09:00:00", LogLevel::Info, "web "),
        record("2024-01-01 09:00:00", LogLevel::Info, ""),
        record("2024-01-01 09:00:00", LogLevel::Info, "web"),
    ];
    let stats = Statistics::from_entries(&entries);
    assert_eq!(
        stats.entries_by_component,
        vec![
            ("Web".to_string(), 1),
            ("web".to_string(), 2),
            ("web ".to_string(), 1),
            ("".to_string(), 1),
        ]
    );
    assert_eq!(stats.most_active_component, Some("web".to_string()));
}

#[test]
fn of_components_with_equal_counts_the_first_seen_is_the_most_active() {
    let entries = vec![
        record("2024-01-01 09:00:00", LogLevel::Info, "zeta"),
        record("2024-01-01 09:00:00", LogLevel::Info, "alpha"),
        record("2024-01-01 09:00:00", LogLevel::Info, "alpha"),
        record("2024-01-01 09:00:00", LogLevel::Info, "zeta"),
        record("2024-01-01 09:00:00", LogLevel::Info, "mid"),
    ];
    let stats = Statistics::from_entries(&entries);
    assert_eq!(stats.most_active_component, Some("zeta".to_string()));
    let turned: Vec<LogEntry> = vec![
        record("2024-01-01 09:00:00", LogLevel::Info, "alpha"),
        record("2024-01-01 09:00:00", LogLevel::Info, "zeta"),
    ];
    assert_eq!(
        Statistics::from_entries(&turned).most_active_component,
        Some("alpha".to_string())
    );
}

#[test]
fn of_hours_with_equal_counts_the_smallest_is_the_peak() {
    let entries = vec![
        record("2024-01-01 17:00:00", LogLevel::Info, "a"),
        record("2024-01-01 03:00:00", LogLevel::Info, "a"),
        record("2024-01-01 17:30:00", LogLevel::Info, "a"),
        record("2024-01-01 03:30:00", LogLevel::Info, "a"),
        record("2024-01-01 00:00:00", LogLevel::Info, "a"),
    ];
    let stats = Statistics::from_entries(&entries);
    assert_eq!(stats.peak_hour, Some(3));
    assert_eq!(stats.entries_by_hour.get(&17), Some(&2));
    assert_eq!(stats.entries_by_hour.get(&3), Some(&2));
    assert_eq!(stats.entries_by_hour.get(&0), Some(&1));
}

#[test]
fn hours_out_of_range_are_counted_as_they_are() {
    let mut odd = record("2024-01-01 00:00:00", LogLevel::Info, "a");
    odd.timestamp.hour = 255;
    let stats = Statistics::from_entries(&[odd]);
    assert_eq!(stats.peak_hour, Some(255));
    assert_eq!(stats.entries_by_hour.get(&255), Some(&1));
}

#[test]
fn parsed_lines_are_summarized() {
    let lines = [
        "2024-01-15 10:23:45 [INFO] app: Started successfully",
        "2024-01-15 10:24:00 [ERROR] db: Connection lost",
        "garbage",
        "2024-01-15 11:00:00 [error] db: Still down",
        "",
        "2024-01-15 09:59:59 [DEBUG] app: Warming up",
    ];
    let mut entries = Vec::new();
    let mut refused = Vec::new();
    for (i, line) in lines.iter().enumerate() {
        match parse_log_line(line, &PathBuf::from("run.log"), i + 1) {
            Ok(entry) => entries.push(entry),
            Err(error) => refused.push(error),
        }
    }
    assert_eq!(entries.len(), 4);
    assert_eq!(refused.len(), 2);
    assert_eq!(refused[0].line_number, 3);
    assert_eq!(refused[0].reason, "Malformed log line");
    assert_eq!(refused[1].line_number, 5);
    assert_eq!(refused[1].reason, "Empty line");
    let stats = Statistics::from_entries(&entries);
    assert_eq!(stats.total_entries, 4);
    assert_eq!(stats.error_count, 2);
    assert_eq!(rate(stats.error_rate), 0.5);
    assert_eq!(
        stats.entries_by_level,
        vec![(LogLevel::Info, 1), (LogLevel::Error, 2), (LogLevel::Debug, 1)]
    );
    assert_eq!(stats.most_active_component, Some("app".to_string()));
    assert_eq!(stats.peak_hour, Some(10));
    assert_eq!(stats.first_entry.unwrap().to_string(), "2024-01-15 09:59:59");
    assert_eq!(stats.last_entry.unwrap().to_string(), "2024-01-15 11:00:00");
}

#[test]
fn a_new_analyzer_holds_nothing() {
    let analyzer = LogAnalyzer::new();
    assert!(analyzer.entries().is_empty());
    assert!(analyzer.parse_errors().is_empty());
    let stats = analyzer.statistics();
    assert_eq!(stats.total_entries, 0);
    assert_eq!(stats.error_rate, Ratio { numerator: 0, denominator: 1 });
    assert_eq!(stats.first_entry, None);
    assert_eq!(stats.last_entry, None);
}
