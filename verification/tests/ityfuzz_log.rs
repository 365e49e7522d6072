use ityfuzz_analyzer::ityfuzz::{assess_log, parse_log, RunOutcome};
use ityfuzz_analyzer::log::{LogField, LogFailure};
use ityfuzz_analyzer::types::StatsEntry;

fn entry(ic: u64, bc: u64, ti: u64, t: u64) -> StatsEntry {
    StatsEntry { instructions_covered: ic, branches_covered: bc, total_instructions: ti, time_taken_millis: t }
}

#[test]
fn parses_samples_relative_to_start() {
    let log = "\u{1b}[32m INFO\u{1b}[0m Ityfuzz start at 1749625856722\n\
               \u{1b}[32m INFO\u{1b}[0m Coverage stat: time-millis: 1749625857722 instructions: 957/2248 branches: 49/112\n\
               INFO Coverage stat: time-millis: 1749625859000 instructions: 1000/2248 branches: 60/112\n";
    let entries = parse_log(log, "c1").unwrap();
    assert_eq!(entries, vec![entry(957, 49, 2248, 1000), entry(1000, 60, 2248, 2278)]);
}

#[test]
fn orders_by_time_and_keeps_first_of_equal_times() {
    let log = "Ityfuzz start at 100\n\
               Coverage stat: time-millis: 300 instructions: 3/10 branches: 3/9\n\
               Coverage stat: time-millis: 200 instructions: 2/10 branches: 2/9\n\
               Coverage stat: time-millis: 300 instructions: 4/10 branches: 4/9\n\
               Coverage stat: time-millis: 100 instructions: 1/10 branches: 1/9\n";
    let entries = parse_log(log, "c").unwrap();
    assert_eq!(entries, vec![entry(1, 1, 10, 0), entry(2, 2, 10, 100), entry(3, 3, 10, 200)]);
}

#[test]
fn coverage_before_start_line_is_ignored() {
    let log = "Coverage stat: time-millis: 5 instructions: 1/2 branches: 1/2\n\
               Ityfuzz start at 1\n\
               Coverage stat: time-millis: 6 instructions: 2/2 branches: 2/2\n";
    assert_eq!(parse_log(log, "c").unwrap(), vec![entry(2, 2, 2, 5)]);
}

#[test]
fn start_and_coverage_on_one_line() {
    let log = "Ityfuzz start at 10 Coverage stat: time-millis: 15 instructions: 1/2 branches: 1/3\n";
    assert_eq!(parse_log(log, "c").unwrap(), vec![entry(1, 1, 2, 5)]);
}

#[test]
fn only_first_start_line_counts() {
    let log = "Ityfuzz start at 10\nItyfuzz start at 20\n\
               Coverage stat: time-millis: 15 instructions: 1/2 branches: 1/3\n";
    assert_eq!(parse_log(log, "c").unwrap(), vec![entry(1, 1, 2, 5)]);
}

#[test]
fn greedy_match_takes_last_occurrence() {
    let log = "Ityfuzz start at 1 Ityfuzz start at 7\n\
               Coverage stat: time-millis: 9 instructions: 1/2 branches: 1/3 Coverage stat: time-millis: 10 instructions: 5/6 branches: 4/4\n";
    assert_eq!(parse_log(log, "c").unwrap(), vec![entry(5, 4, 6, 3)]);
}

#[test]
fn crlf_lines() {
    let log = "Ityfuzz start at 10\r\nCoverage stat: time-millis: 12 instructions: 1/2 branches: 1/3\r\n";
    assert_eq!(parse_log(log, "c").unwrap(), vec![entry(1, 1, 2, 2)]);
}

#[test]
fn timestamp_before_start_is_an_error() {
    let log = "Ityfuzz start at 100\nCoverage stat: time-millis: 99 instructions: 1/2 branches: 1/3\n";
    let err = parse_log(log, "contract-7").unwrap_err();
    assert_eq!(err.contract_id, "contract-7");
    assert!(matches!(err.failure, LogFailure::TimestampBeforeStart { timestamp: 99, start: 100 }));
    assert_eq!(err.message(), "Timestamp 99 is before the 'start at' timestamp 100 for contract contract-7");
}

#[test]
fn missing_start_is_an_error() {
    let log = "some output\nCoverage stat: time-millis: 99 instructions: 1/2 branches: 1/3\n";
    let err = parse_log(log, "c9").unwrap_err();
    assert!(matches!(err.failure, LogFailure::MissingStart { field: LogField::StartTimestamp }));
    assert_eq!(err.message(), "No 'start at' timestamp found in log for c9 despite other stat lines being present.");
    assert!(parse_log("hello\n", "c").is_err());
}

#[test]
fn blank_log_has_no_samples() {
    assert_eq!(parse_log("", "c").unwrap(), vec![]);
    assert_eq!(parse_log(" \n\t\r\n  ", "c").unwrap(), vec![]);
}

#[test]
fn start_without_samples() {
    assert_eq!(parse_log("Ityfuzz start at 5\nnothing else\n", "c").unwrap(), vec![]);
}

#[test]
fn overflowing_start_is_an_error() {
    let log = "Ityfuzz start at 18446744073709551616\n";
    let err = parse_log(log, "c").unwrap_err();
    match &err.failure {
        LogFailure::Unparsable { field, text } => {
            assert_eq!(*field, LogField::StartTimestamp);
            assert_eq!(text, "18446744073709551616");
        }
        _ => panic!("wrong failure"),
    }
    assert_eq!(err.message(), "Failed to parse 'start at' timestamp: 18446744073709551616");
    assert_eq!(parse_log("Ityfuzz start at 18446744073709551615\n", "c").unwrap(), vec![]);
}

#[test]
fn unparsable_fields_are_reported_in_order() {
    let big = "99999999999999999999";
    let log = format!("Ityfuzz start at 1\nCoverage stat: time-millis: {big} instructions: {big}/{big} branches: {big}/1\n");
    let err = parse_log(&log, "c").unwrap_err();
    assert!(matches!(err.failure, LogFailure::Unparsable { field: LogField::InstructionsCovered, .. }));
    let log = format!("Ityfuzz start at 1\nCoverage stat: time-millis: {big} instructions: 1/{big} branches: {big}/1\n");
    assert!(matches!(parse_log(&log, "c").unwrap_err().failure, LogFailure::Unparsable { field: LogField::BranchesCovered, .. }));
    let log = format!("Ityfuzz start at 1\nCoverage stat: time-millis: {big} instructions: 1/{big} branches: 1/1\n");
    assert!(matches!(parse_log(&log, "c").unwrap_err().failure, LogFailure::Unparsable { field: LogField::TimestampMillis, .. }));
    let log = format!("Ityfuzz start at 1\nCoverage stat: time-millis: 2 instructions: 1/{big} branches: 1/1\n");
    let err = parse_log(&log, "c").unwrap_err();
    assert!(matches!(err.failure, LogFailure::Unparsable { field: LogField::TotalInstructions, .. }));
    assert_eq!(err.message(), format!("Failed to parse total_instructions: {big}"));
}

#[test]
fn non_ascii_decimal_digits_match_but_do_not_parse() {
    // `\d` matches Arabic-Indic digits, which `u64::from_str` rejects.
    let log = "Ityfuzz start at \u{0661}\u{0662}\n";
    let err = parse_log(log, "c").unwrap_err();
    match err.failure {
        LogFailure::Unparsable { field, text } => {
            assert_eq!(field, LogField::StartTimestamp);
            assert_eq!(text, "\u{0661}\u{0662}");
        }
        _ => panic!("wrong failure"),
    }
}

#[test]
fn malformed_coverage_lines_are_skipped() {
    let log = "Ityfuzz start at 1\n\
               Coverage stat: time-millis: 5 instructions: 1/2 branches: 1/\n\
               Coverage stat: time-millis: x instructions: 1/2 branches: 1/2\n\
               Coverage stat: time-millis: 6 instructions: 1/2 branches: 1/2\n";
    assert_eq!(parse_log(log, "c").unwrap(), vec![entry(1, 1, 2, 5)]);
}

#[test]
fn assess_outcomes() {
    assert!(matches!(assess_log("  \n", "c"), RunOutcome::EmptyLog));
    assert!(matches!(assess_log("Ityfuzz start at 1\n", "c"), RunOutcome::NoSamples));
    assert!(matches!(assess_log("garbage\n", "c"), RunOutcome::Unreadable(_)));
    match assess_log("Ityfuzz start at 1\nCoverage stat: time-millis: 3 instructions: 1/2 branches: 1/2\n", "c") {
        RunOutcome::Samples(v) => assert_eq!(v, vec![entry(1, 1, 2, 2)]),
        _ => panic!("expected samples"),
    }
}
