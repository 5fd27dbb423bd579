use log_analyzer::entry::LogEntry;
use log_analyzer::parser::{
    entry_from_capture, entry_from_groups, entry_from_parts, load_logs, parse_log_line,
    LineParser, LOG_PATTERN,
};
use log_analyzer::timestamp::{Timestamp, TIMESTAMP_FORMAT};

fn parser() -> LineParser {
    LineParser::new().expect("the line grammar compiles")
}

fn stamp(year: i32, month: u32, day: u32, hour: u32, minute: u32) -> Timestamp {
    Timestamp { year, month, day, hour, minute }
}

fn fields(entry: &LogEntry) -> (Timestamp, &str, &str) {
    (entry.timestamp, entry.log_type.as_str(), entry.message.as_str())
}

#[test]
fn parses_a_well_formed_line() {
    let entry = parse_log_line(&parser(), "15/03/2024 09:30; ERROR; disk full").unwrap();
    assert_eq!(fields(&entry), (stamp(2024, 3, 15, 9, 30), "ERROR", "disk full"));
}

#[test]
fn rejects_a_line_without_fields() {
    assert!(parse_log_line(&parser(), "not a log line").is_none());
    assert!(parse_log_line(&parser(), "").is_none());
}

#[test]
fn rejects_a_line_with_a_missing_delimiter() {
    let p = parser();
    assert!(parse_log_line(&p, "15/03/2024 09:30; ERROR disk full").is_none());
    assert!(parse_log_line(&p, "15/03/2024 09:30 ERROR; disk full").is_none());
}

#[test]
fn rejects_a_malformed_date() {
    let p = parser();
    assert!(parse_log_line(&p, "31/02/2024 09:30; ERROR; no such day").is_none());
    assert!(parse_log_line(&p, "15/13/2024 09:30; ERROR; no such month").is_none());
    assert!(parse_log_line(&p, "15/03/2024 24:00; ERROR; no such hour").is_none());
    assert!(parse_log_line(&p, "15/03/2024 09:60; ERROR; no such minute").is_none());
    assert!(parse_log_line(&p, "5/3/2024 9:30; ERROR; short fields").is_none());
    assert!(parse_log_line(&p, "2024-03-15 09:30; ERROR; other layout").is_none());
}

#[test]
fn accepts_a_leap_day_only_in_a_leap_year() {
    let p = parser();
    let entry = parse_log_line(&p, "29/02/2024 00:00; INFO; leap").unwrap();
    assert_eq!(entry.timestamp, stamp(2024, 2, 29, 0, 0));
    assert!(parse_log_line(&p, "29/02/2023 00:00; INFO; no leap").is_none());
}

#[test]
fn keeps_the_level_as_written() {
    let p = parser();
    let lower = parse_log_line(&p, "01/01/2024 00:00; error; x").unwrap();
    assert_eq!(lower.log_type, "error");
    let custom = parse_log_line(&p, "01/01/2024 00:00; Audit_2; x").unwrap();
    assert_eq!(custom.log_type, "Audit_2");
}

#[test]
fn keeps_semicolons_in_the_message() {
    let entry = parse_log_line(&parser(), "01/01/2024 23:59; WARNING; a; b;c").unwrap();
    assert_eq!(fields(&entry), (stamp(2024, 1, 1, 23, 59), "WARNING", "a; b;c"));
}

#[test]
fn tolerates_whitespace_after_delimiters() {
    let p = parser();
    let none = parse_log_line(&p, "01/01/2024 10:00;INFO;ready").unwrap();
    assert_eq!(fields(&none), (stamp(2024, 1, 1, 10, 0), "INFO", "ready"));
    let many = parse_log_line(&p, "01/01/2024 10:00;   INFO;\t  ready now ").unwrap();
    assert_eq!(fields(&many), (stamp(2024, 1, 1, 10, 0), "INFO", "ready now "));
}

#[test]
fn rejects_whitespace_before_a_delimiter() {
    assert!(parse_log_line(&parser(), "01/01/2024 10:00 ; INFO; ready").is_none());
    assert!(parse_log_line(&parser(), "01/01/2024 10:00; INFO ; ready").is_none());
}

#[test]
fn rejects_an_empty_message() {
    assert!(parse_log_line(&parser(), "01/01/2024 10:00; INFO;").is_none());
}

#[test]
fn rejects_text_before_the_timestamp() {
    let p = parser();
    assert!(parse_log_line(&p, "x15/03/2024 09:30; ERROR; disk full").is_none());
    assert!(parse_log_line(&p, ">> 15/03/2024 09:30; DEBUG; later").is_none());
    assert!(parse_log_line(&p, " 15/03/2024 09:30; DEBUG; later").is_none());
    assert!(parse_log_line(&p, "115/03/2024 09:30; DEBUG; later").is_none());
    assert!(parse_log_line(&p, "junk\n15/03/2024 09:30; DEBUG; later").is_none());
}

#[test]
fn a_match_must_start_the_line() {
    let groups = || {
        vec![
            group("01/02/2024 03:04; INFO; m"),
            group("01/02/2024 03:04"),
            group("INFO"),
            group("m"),
        ]
    };
    let made = entry_from_capture(Some((0, groups()))).unwrap();
    assert_eq!(fields(&made), (stamp(2024, 2, 1, 3, 4), "INFO", "m"));
    assert!(entry_from_capture(Some((1, groups()))).is_none());
    assert!(entry_from_capture(Some((usize::MAX, groups()))).is_none());
    assert!(entry_from_capture(None).is_none());
    assert!(entry_from_capture(Some((0, vec![]))).is_none());
}

#[test]
fn the_line_grammar_is_anchored() {
    assert!(LOG_PATTERN.starts_with('^'));
}

#[test]
fn parsed_timestamps_are_calendar_dates() {
    let p = parser();
    for line in ["29/02/2024 00:00; INFO; a", "31/12/9999 23:59; INFO; b", "01/01/0000 00:00; INFO; c"] {
        assert!(parse_log_line(&p, line).unwrap().timestamp.is_valid());
    }
    assert!(Timestamp::parse("29/02/2000 12:00").unwrap().is_valid());
    assert_eq!(Timestamp::parse("29/02/1900 12:00"), None);
}

#[test]
fn validity_follows_the_calendar() {
    assert!(stamp(2024, 2, 29, 0, 0).is_valid());
    assert!(!stamp(2023, 2, 29, 0, 0).is_valid());
    assert!(stamp(2000, 2, 29, 0, 0).is_valid());
    assert!(!stamp(1900, 2, 29, 0, 0).is_valid());
    assert!(stamp(-4, 2, 29, 0, 0).is_valid());
    assert!(!stamp(-100, 2, 29, 0, 0).is_valid());
    assert!(stamp(2024, 4, 30, 23, 59).is_valid());
    assert!(!stamp(2024, 4, 31, 0, 0).is_valid());
    assert!(stamp(2024, 12, 31, 0, 0).is_valid());
    assert!(!stamp(2024, 13, 1, 0, 0).is_valid());
    assert!(!stamp(2024, 0, 1, 0, 0).is_valid());
    assert!(!stamp(2024, 1, 0, 0, 0).is_valid());
    assert!(!stamp(2024, 1, 32, 0, 0).is_valid());
    assert!(!stamp(2024, 1, 1, 24, 0).is_valid());
    assert!(!stamp(2024, 1, 1, 0, 60).is_valid());
}

#[test]
fn timestamp_parse_reads_the_layout() {
    assert_eq!(Timestamp::parse("15/03/2024 09:30"), Some(stamp(2024, 3, 15, 9, 30)));
    assert_eq!(Timestamp::parse("31/12/1999 23:59"), Some(stamp(1999, 12, 31, 23, 59)));
    assert_eq!(Timestamp::parse("2024-03-15 09:30"), None);
    assert_eq!(Timestamp::parse("15/03/2024"), None);
    assert_eq!(Timestamp::parse("15/03/2024 09:30:00"), None);
    assert_eq!(Timestamp::parse(""), None);
    assert_eq!(TIMESTAMP_FORMAT, "%d/%m/%Y %H:%M");
}

#[test]
fn timestamps_are_ordered_chronologically() {
    let a = stamp(2024, 3, 15, 9, 30);
    assert!(a.is_at_or_before(&a));
    assert!(a.is_at_or_before(&stamp(2024, 3, 15, 9, 31)));
    assert!(!stamp(2024, 3, 15, 9, 31).is_at_or_before(&a));
    assert!(stamp(2023, 12, 31, 23, 59).is_at_or_before(&stamp(2024, 1, 1, 0, 0)));
    assert!(!stamp(2024, 1, 1, 0, 0).is_at_or_before(&stamp(2023, 12, 31, 23, 59)));
    assert!(stamp(2024, 2, 28, 23, 0).is_at_or_before(&stamp(2024, 3, 1, 0, 0)));
    assert!(stamp(2024, 3, 1, 9, 59).is_at_or_before(&stamp(2024, 3, 1, 10, 0)));
    assert!(!stamp(2024, 3, 2, 0, 0).is_at_or_before(&stamp(2024, 3, 1, 23, 59)));
}

#[test]
fn entry_from_parts_needs_a_timestamp() {
    let made = entry_from_parts(Some(stamp(2024, 1, 2, 3, 4)), "INFO".to_string(), "m".to_string());
    assert_eq!(fields(&made.unwrap()), (stamp(2024, 1, 2, 3, 4), "INFO", "m"));
    assert!(entry_from_parts(None, "INFO".to_string(), "m".to_string()).is_none());
}

fn group(text: &str) -> Option<String> {
    Some(text.to_string())
}

#[test]
fn entry_from_groups_takes_the_three_fields() {
    let groups = vec![
        group("01/02/2024 03:04; INFO; m"),
        group("01/02/2024 03:04"),
        group("INFO"),
        group("m"),
    ];
    let made = entry_from_groups(Some(groups)).unwrap();
    assert_eq!(fields(&made), (stamp(2024, 2, 1, 3, 4), "INFO", "m"));
}

#[test]
fn entry_from_groups_rejects_other_shapes() {
    assert!(entry_from_groups(None).is_none());
    assert!(entry_from_groups(Some(vec![])).is_none());
    let short = vec![group("x"), group("01/02/2024 03:04"), group("INFO")];
    assert!(entry_from_groups(Some(short)).is_none());
    let long = vec![group("x"), group("01/02/2024 03:04"), group("INFO"), group("m"), group("n")];
    assert!(entry_from_groups(Some(long)).is_none());
    let absent = vec![group("x"), group("01/02/2024 03:04"), None, group("m")];
    assert!(entry_from_groups(Some(absent)).is_none());
    let bad_time = vec![group("x"), group("99/99/2024 03:04"), group("INFO"), group("m")];
    assert!(entry_from_groups(Some(bad_time)).is_none());
}

#[test]
fn a_parser_is_made_where_the_grammar_compiled() {
    let parser = LineParser::from_compiled(regex::Regex::new(LOG_PATTERN)).unwrap();
    let entry = parse_log_line(&parser, "15/03/2024 09:30; ERROR; disk full").unwrap();
    assert_eq!(fields(&entry), (stamp(2024, 3, 15, 9, 30), "ERROR", "disk full"));
    assert!(LineParser::from_compiled(regex::Regex::new("(")).is_none());
}

fn lines(texts: &[&str]) -> Vec<String> {
    texts.iter().map(|t| t.to_string()).collect()
}

#[test]
fn malformed_lines_are_skipped_silently() {
    let input = lines(&[
        "01/01/2024 10:00; INFO; first",
        "garbage",
        "01/01/2024 10:01; ERROR; second",
        "32/01/2024 10:02; ERROR; bad day",
        "",
        "01/01/2024 10:03; trace; third",
    ]);
    let logs = load_logs(&parser(), &input);
    let got: Vec<_> = logs.iter().map(fields).collect();
    assert_eq!(
        got,
        vec![
            (stamp(2024, 1, 1, 10, 0), "INFO", "first"),
            (stamp(2024, 1, 1, 10, 1), "ERROR", "second"),
            (stamp(2024, 1, 1, 10, 3), "trace", "third"),
        ]
    );
}

#[test]
fn a_file_of_malformed_lines_gives_no_records() {
    let input = lines(&["one", "two; three", "01/01/2024; INFO; no time"]);
    assert!(load_logs(&parser(), &input).is_empty());
}

#[test]
fn an_empty_file_gives_no_records() {
    assert!(load_logs(&parser(), &[]).is_empty());
}

#[test]
fn duplicate_lines_give_duplicate_records() {
    let input = lines(&["01/01/2024 10:00; INFO; same", "01/01/2024 10:00; INFO; same"]);
    let logs = load_logs(&parser(), &input);
    assert_eq!(logs.len(), 2);
    assert_eq!(fields(&logs[0]), fields(&logs[1]));
}
