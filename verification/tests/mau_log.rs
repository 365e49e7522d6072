use ityfuzz_analyzer::log::{LogField, LogFailure};
use ityfuzz_analyzer::mau::{assess_log, parse_log, RunOutcome, StatsEntry};

fn entry(ic: u64, bc: u64, t: u64) -> StatsEntry {
    StatsEntry { instructions_covered: ic, branches_covered: bc, time_taken_nanos: t }
}

#[test]
fn mau_parses_samples_relative_to_start() {
    let log = "[info] Began at 1000\n\
               [stat] Instruction Covered: 10; Branch Covered: 2 Timestamp Nanos: 1500\n\
               [stat] Instruction Covered: 12; Branch Covered: 3 Timestamp Nanos: 1400\n";
    assert_eq!(parse_log(log, "c").unwrap(), vec![entry(12, 3, 400), entry(10, 2, 500)]);
}

#[test]
fn mau_samples_before_start_are_dropped() {
    let log = "Began at 1000\n\
               Instruction Covered: 10; Branch Covered: 2 Timestamp Nanos: 999\n\
               Instruction Covered: 11; Branch Covered: 2 Timestamp Nanos: 1000\n";
    assert_eq!(parse_log(log, "c").unwrap(), vec![entry(11, 2, 0)]);
}

#[test]
fn mau_leftmost_match() {
    let log = "Began at 5 Began at 9\n\
               Instruction Covered: 1; Branch Covered: 1 Timestamp Nanos: 6 Instruction Covered: 2; Branch Covered: 2 Timestamp Nanos: 8\n";
    assert_eq!(parse_log(log, "c").unwrap(), vec![entry(1, 1, 1)]);
}

#[test]
fn mau_missing_start_with_stats_is_an_error() {
    let log = "Instruction Covered: 1; Branch Covered: 1 Timestamp Nanos: 6\n";
    let err = parse_log(log, "g1").unwrap_err();
    assert!(matches!(err.failure, LogFailure::MissingStart { field: LogField::BeganAt }));
    assert_eq!(err.message(), "No 'Began at' timestamp found in log for g1 despite other stat lines being present.");
}

#[test]
fn mau_missing_start_without_stats_is_no_error() {
    assert_eq!(parse_log("just some text\n", "c").unwrap(), vec![]);
    assert_eq!(parse_log("", "c").unwrap(), vec![]);
}

#[test]
fn mau_unparsable_fields() {
    let big = "123456789012345678901";
    let log = format!("Began at {big}\n");
    let err = parse_log(&log, "c").unwrap_err();
    assert!(matches!(err.failure, LogFailure::Unparsable { field: LogField::BeganAt, .. }));
    assert_eq!(err.message(), format!("Failed to parse 'Began at' timestamp: {big}"));
    let log = format!("Began at 1\nInstruction Covered: 1; Branch Covered: 1 Timestamp Nanos: {big}\n");
    let err = parse_log(&log, "c").unwrap_err();
    assert!(matches!(err.failure, LogFailure::Unparsable { field: LogField::TimestampNanos, .. }));
    assert_eq!(err.message(), format!("Failed to parse timestamp_nanos: {big}"));
}

#[test]
fn mau_assess_outcomes() {
    assert!(matches!(assess_log("x SYSTEM ERROR : [Cuda] y", "c", true), RunOutcome::CudaAbort));
    assert!(matches!(assess_log("x SYSTEM ERROR : [Cuda] y", "c", false), RunOutcome::CudaSkip));
    assert!(matches!(assess_log(" \t\n", "c", true), RunOutcome::EmptyLog));
    assert!(matches!(assess_log("hello\n", "c", true), RunOutcome::NoSamples));
    assert!(matches!(assess_log("Instruction Covered: 1; Branch Covered: 1 Timestamp Nanos: 6\n", "c", true), RunOutcome::Unreadable(_)));
    match assess_log("Began at 1\nInstruction Covered: 1; Branch Covered: 1 Timestamp Nanos: 6\n", "c", false) {
        RunOutcome::Samples(v) => assert_eq!(v, vec![entry(1, 1, 5)]),
        _ => panic!("expected samples"),
    }
}
