use ityfuzz_analyzer::clock::current_time_label;
use ityfuzz_analyzer::normalize::normalize_by_time;
use ityfuzz_analyzer::run::{
    analyzer_log_file_name, csv_file_path, dir_glob, log_file_path, log_level, path_join, run_exit,
    timeout_command, LogLevel, RunExit,
};
use ityfuzz_analyzer::types::{PlotArgs, RunArgs, StatsEntry};
use ityfuzz_analyzer::{ityfuzz, mau};
use std::path::Path;

fn strings(v: &[&str]) -> Vec<String> {
    v.iter().map(|s| s.to_string()).collect()
}

#[test]
fn globs_and_paths() {
    assert_eq!(dir_glob("bench/b1"), "bench/b1/*");
    assert_eq!(log_file_path("b1", "2024-x"), "raw-logs/b1/2024-x.log");
    assert_eq!(csv_file_path("analysis_output", "c1"), "analysis_output/c1.instructions.stats.csv");
    assert_eq!(analyzer_log_file_name("2025-01-02_03-04-05"), "ityfuzz-analyzer-2025-01-02_03-04-05.log");
    for (b, n) in [("a/b", "c"), ("a/b/", "c"), ("", "c"), ("a", "/abs"), ("/", "x")] {
        assert_eq!(path_join(b, n), Path::new(b).join(n).to_string_lossy());
    }
}

#[test]
fn timeout_command_line() {
    let cmd = timeout_command(15, "ityfuzz", &strings(&["evm", "-t", "d/*"]));
    assert_eq!(cmd.program, "timeout");
    assert_eq!(cmd.args, strings(&["15", "ityfuzz", "evm", "-t", "d/*"]));
}

#[test]
fn exit_status_reading() {
    assert_eq!(run_exit(true, Some(0)), RunExit::Succeeded);
    assert_eq!(run_exit(false, Some(124)), RunExit::TimedOut);
    assert_eq!(run_exit(false, Some(1)), RunExit::Failed);
    assert_eq!(run_exit(false, None), RunExit::Failed);
}

#[test]
fn log_levels() {
    assert_eq!(log_level("trace"), LogLevel::Trace);
    assert_eq!(log_level("debug"), LogLevel::Debug);
    assert_eq!(log_level("warn"), LogLevel::Warn);
    assert_eq!(log_level("error"), LogLevel::Error);
    assert_eq!(log_level(""), LogLevel::Info);
    assert_eq!(log_level("TRACE"), LogLevel::Info);
}

#[test]
fn ityfuzz_fuzzer_arguments() {
    assert_eq!(
        ityfuzz::fuzzer_arguments("evm --run-forever", "bench/c1", None),
        strings(&["evm", "--run-forever", "-t", "bench/c1/*"])
    );
    assert_eq!(
        ityfuzz::fuzzer_arguments("  evm ", "c", Some(ityfuzz::work_dir_path("T", "c"))),
        strings(&["evm", "-t", "c/*", "-w", ".work-dirs/T/c"])
    );
    let mut args = RunArgs::new("bench".to_string());
    assert_eq!(ityfuzz::run_fuzzer_arguments(&args, "bench/c1", "c1"), strings(&["evm", "--run-forever", "-t", "bench/c1/*"]));
    args.use_work_dir = true;
    let got = ityfuzz::run_fuzzer_arguments(&args, "bench/c1", "c1");
    assert_eq!(got.len(), 6);
    assert_eq!(got[4], "-w");
    assert!(got[5].starts_with(".work-dirs/") && got[5].ends_with("/c1"));
}

#[test]
fn mau_fuzzer_arguments() {
    assert_eq!(mau::ptx_path("bench/c1"), "bench/c1/kernel.ptx");
    assert_eq!(
        mau::fuzzer_arguments("evm", "bench/c1", true, true),
        strings(&["evm", "--ptx-path", "bench/c1/kernel.ptx", "--gpu-dev", "0", "-t", "bench/c1/*"])
    );
    assert_eq!(mau::fuzzer_arguments("evm", "bench/c1", true, false), strings(&["evm", "-t", "bench/c1/*"]));
    assert_eq!(mau::fuzzer_arguments("evm", "bench/c1", false, true), strings(&["evm", "-t", "bench/c1/*"]));
}

#[test]
fn time_label_shape() {
    let label = current_time_label();
    assert_eq!(label.len(), 19);
    let b = label.as_bytes();
    assert_eq!((b[4], b[7], b[10], b[13], b[16]), (b'-', b'-', b'_', b'-', b'-'));
}

#[test]
fn command_line_defaults() {
    let a = RunArgs::new("bench".to_string());
    assert_eq!(a.jobs, 1);
    assert_eq!(a.fuzzer_path, "ityfuzz");
    assert_eq!(a.fuzzer_options, "evm --run-forever");
    assert_eq!(a.benchmark_base_dir, "bench");
    assert_eq!(a.output_dir, "analysis_output");
    assert_eq!(a.fuzz_timeout_seconds, 15);
    assert!(!a.use_work_dir);
    assert_eq!(PlotArgs::new().output_dir, "analysis_output");
}

fn e(ic: u64, t: u64) -> StatsEntry {
    StatsEntry { instructions_covered: ic, branches_covered: 0, total_instructions: 0, time_taken_millis: t }
}

#[test]
fn normalization_sorts_keeps_first_and_is_idempotent() {
    let raw = vec![e(1, 5), e(2, 3), e(3, 5), e(4, 1), e(5, 3)];
    let once = normalize_by_time(&raw);
    assert_eq!(once, vec![e(4, 1), e(2, 3), e(1, 5)]);
    assert_eq!(normalize_by_time(&once), once);
    let mut std_way = raw.clone();
    std_way.sort_by_key(|x| x.time_taken_millis);
    std_way.dedup_by_key(|x| x.time_taken_millis);
    assert_eq!(once, std_way);
    assert_eq!(normalize_by_time(&Vec::<StatsEntry>::new()), vec![]);
}
