use crypto_key::log_format::{format_log, log_line};
use crypto_key::log_parse::{get_formatted_logs, log_is_readable, LogEntry};

fn details_of(e: &LogEntry) -> Vec<(String, String)> {
    let mut d = e.details.clone();
    d.sort();
    d
}

fn pair(k: &str, v: &str) -> (String, String) {
    (k.to_string(), v.to_string())
}

#[test]
fn format_log_joins_details() {
    let m = format_log("Decrypt Failed", &[("Reason", "Corrupt/Short File"), ("File Size", "5")]);
    assert_eq!(m, "EVENT: Decrypt Failed; Reason: Corrupt/Short File; File Size: 5");
}

#[test]
fn format_log_without_details() {
    assert_eq!(format_log("Signature List Start", &[]), "EVENT: Signature List Start; ");
}

#[test]
fn log_line_brackets_timestamp() {
    assert_eq!(log_line("2024-05-01 10:00:00", "EVENT: X; a: b"), "[2024-05-01 10:00:00] EVENT: X; a: b");
}

#[test]
fn event_line_is_read_back() {
    let content = "[2024-05-01 10:00:00] EVENT: Symmetric Encrypt Start; File: /tmp/a.txt\n";
    let entries = get_formatted_logs(content);
    assert_eq!(entries.len(), 1);
    let e = &entries[0];
    assert_eq!(e.timestamp, "2024-05-01 10:00:00");
    assert_eq!(e.level, "INFO");
    assert_eq!(e.event, "Symmetric Encrypt Start");
    assert_eq!(details_of(e), vec![pair("File", "/tmp/a.txt")]);
}

#[test]
fn written_records_read_back() {
    let m1 = format_log("Digest Calculation Success", &[("File", "/tmp/x"), ("Digest Length", "64")]);
    let m2 = format_log("Signature List Start", &[]);
    let m3 = format_log("Keys Dir Error", &[("Context", "Symmetric Encrypt"), ("Error", "")]);
    let content = format!(
        "{}\n{}\n{}\n",
        log_line("2024-01-02 03:04:05", &m1),
        log_line("2024-01-02 03:04:06", &m2),
        log_line("2024-01-02 03:04:07", &m3)
    );
    assert!(log_is_readable(&content));
    let entries = get_formatted_logs(&content);
    assert_eq!(entries.len(), 3);
    assert_eq!(entries[0].timestamp, "2024-01-02 03:04:05");
    assert_eq!(entries[0].event, "Digest Calculation Success");
    assert_eq!(details_of(&entries[0]), vec![pair("Digest Length", "64"), pair("File", "/tmp/x")]);
    assert_eq!(entries[1].event, "Signature List Start;");
    assert!(entries[1].details.is_empty());
    assert_eq!(entries[1].level, "INFO");
    assert_eq!(entries[2].event, "Keys Dir Error");
    assert_eq!(details_of(&entries[2]), vec![pair("Context", "Symmetric Encrypt"), pair("Error", "")]);
}

#[test]
fn later_detail_replaces_earlier() {
    let entries = get_formatted_logs("[t] EVENT: E; K: 1; junk; K: 2; L: a:b");
    assert_eq!(details_of(&entries[0]), vec![pair("K", "2"), pair("L", "a:b")]);
}

#[test]
fn logger_start_line() {
    let content = "2024-05-01 10:00:00 [INFO ] \u{1F680} Logger inicializiran na \"/home/u/app/logger/crypto_log.txt\"\n";
    assert!(log_is_readable(content));
    let entries = get_formatted_logs(content);
    assert_eq!(entries.len(), 1);
    let e = &entries[0];
    assert_eq!(e.timestamp, "2024-05-01 10:00:00");
    assert_eq!(e.level, "INFO");
    assert_eq!(e.event, "Logger Initialization");
    assert_eq!(details_of(e), vec![pair("Path", "/home/u/app/logger/crypto_log.txt")]);
}

#[test]
fn dated_line_with_level_words() {
    let entries = get_formatted_logs("2024-05-01 10:00:00 [warn extra] something happened");
    let e = &entries[0];
    assert_eq!(e.timestamp, "2024-05-01 10:00:00");
    assert_eq!(e.level, "WARN");
    assert_eq!(e.event, "something happened");
}

#[test]
fn dated_line_without_level() {
    let entries = get_formatted_logs("2024-05-01 10:00:00 plain words");
    let e = &entries[0];
    assert_eq!(e.level, "N/A");
    assert_eq!(e.event, "plain words");
}

#[test]
fn unstructured_lines() {
    let entries = get_formatted_logs("random text\n[no closing bracket\n[ts] not an event\n");
    assert_eq!(entries.len(), 3);
    assert_eq!(entries[0].timestamp, "N/A");
    assert_eq!(entries[0].level, "N/A");
    assert_eq!(entries[0].event, "random text");
    assert_eq!(entries[1].timestamp, "N/A");
    assert_eq!(entries[1].event, "[no closing bracket");
    assert_eq!(entries[2].timestamp, "ts");
    assert_eq!(entries[2].level, "N/A");
    assert_eq!(entries[2].event, "not an event");
}

#[test]
fn blank_lines_are_skipped() {
    let entries = get_formatted_logs("\n   \n[t] EVENT: X; a: b\r\n\n");
    assert_eq!(entries.len(), 1);
    assert_eq!(entries[0].event, "X");
    assert_eq!(details_of(&entries[0]), vec![pair("a", "b")]);
}

#[test]
fn empty_log() {
    assert!(get_formatted_logs("").is_empty());
}

#[test]
fn unreadable_dated_line_is_detected() {
    assert!(!log_is_readable("ok line\n2024-05-01 10:00:0\u{e9} broken\n"));
    assert!(log_is_readable("2024-05-01 10:00:00 fine"));
}
