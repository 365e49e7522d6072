//! The decisions that the analyzer's driver takes around each fuzzer run:
//! where files go, how the fuzzer is started and how its exit is read.

use vstd::prelude::*;
use vstd::string::StringExecFns;
use crate::text::{decimal_digits, strings_view, u64_to_decimal};

verus! {

broadcast use vstd::string::group_string_axioms;

/// The glob pattern of the entries of directory `dir`: `dir/*`.
pub open spec fn dir_glob_spec(dir: Seq<char>) -> Seq<char> {
    dir + "/*"@
}

/// The glob pattern of the entries of directory `dir`.
pub fn dir_glob(dir: &str) -> (pattern: String)
    ensures
        pattern@ == dir_glob_spec(dir@),
{
    dir.to_string().concat("/*")
}

/// `base` joined with `name` as `Path::join` does on Unix: an absolute
/// `name` replaces `base`, and a separator goes between the two unless `base`
/// is empty or already ends with one.
pub open spec fn path_join_spec(base: Seq<char>, name: Seq<char>) -> Seq<char> {
    if name.len() > 0 && name[0] == '/' {
        name
    } else if base.len() == 0 {
        name
    } else if base.last() == '/' {
        base + name
    } else {
        base + "/"@ + name
    }
}

/// Joins a file or directory name onto a path.
pub fn path_join(base: &str, name: &str) -> (path: String)
    ensures
        path@ == path_join_spec(base@, name@),
{
    let n = base.unicode_len();
    let m = name.unicode_len();
    if m > 0 && name.get_char(0) == '/' {
        return name.to_string();
    }
    if n == 0 {
        return name.to_string();
    }
    if base.get_char(n - 1) == '/' {
        return base.to_string().concat(name);
    }
    base.to_string().concat("/").concat(name)
}

/// Where the raw log of a contract's run goes: `raw-logs/<folder>/<id>.log`.
pub open spec fn log_file_path_spec(folder: Seq<char>, contract_id: Seq<char>) -> Seq<char> {
    "raw-logs/"@ + folder + "/"@ + contract_id + ".log"@
}

/// The path of the raw log of a contract's run, for the benchmark folder
/// `folder`.
pub fn log_file_path(folder: &str, contract_id: &str) -> (path: String)
    ensures
        path@ == log_file_path_spec(folder@, contract_id@),
{
    "raw-logs/".to_string().concat(folder).concat("/").concat(contract_id).concat(".log")
}

/// The name of a contract's statistics file: `<id>.instructions.stats.csv`.
pub open spec fn csv_file_name_spec(contract_id: Seq<char>) -> Seq<char> {
    contract_id + ".instructions.stats.csv"@
}

/// The path of a contract's statistics file in the output directory.
pub fn csv_file_path(output_dir: &str, contract_id: &str) -> (path: String)
    ensures
        path@ == path_join_spec(output_dir@, csv_file_name_spec(contract_id@)),
{
    let name = contract_id.to_string().concat(".instructions.stats.csv");
    path_join(output_dir, name.as_str())
}

/// The name of the analyzer's own log file: `ityfuzz-analyzer-<label>.log`.
pub open spec fn analyzer_log_file_name_spec(time_label: Seq<char>) -> Seq<char> {
    "ityfuzz-analyzer-"@ + time_label + ".log"@
}

/// The name of the analyzer's own log file, for the time label of its start.
pub fn analyzer_log_file_name(time_label: &str) -> (name: String)
    ensures
        name@ == analyzer_log_file_name_spec(time_label@),
{
    "ityfuzz-analyzer-".to_string().concat(time_label).concat(".log")
}

/// A program and its arguments.
pub struct CommandLine {
    pub program: String,
    pub args: Vec<String>,
}

/// The command that runs `program` with `args` under `timeout`, which stops
/// it after `timeout_seconds` seconds: `timeout <seconds> <program> <args>`.
pub fn timeout_command(timeout_seconds: u64, program_path: &str, args: &Vec<String>) -> (cmd:
    CommandLine)
    ensures
        cmd.program@ == "timeout"@,
        strings_view(cmd.args@) == seq![decimal_digits(timeout_seconds as nat), program_path@]
            + strings_view(args@),
{
    let mut all: Vec<String> = Vec::new();
    all.push(u64_to_decimal(timeout_seconds));
    all.push(program_path.to_string());
    let mut i: usize = 0;
    while i < args.len()
        invariant
            i <= args.len(),
            strings_view(all@) == seq![decimal_digits(timeout_seconds as nat), program_path@]
                + strings_view(args@.take(i as int)),
        decreases args.len() - i,
    {
        let a = args[i].clone();
        assert(a@ == args@[i as int]@);
        let ghost old_all = all@;
        all.push(a);
        assert(strings_view(all@) =~= strings_view(old_all).push(args@[i as int]@));
        assert(strings_view(args@.take(i + 1)) =~= strings_view(args@.take(i as int)).push(
            args@[i as int]@,
        ));
        assert(strings_view(all@) =~= seq![decimal_digits(timeout_seconds as nat), program_path@]
            + strings_view(args@.take(i + 1)));
        i = i + 1;
    }
    assert(args@.take(i as int) =~= args@);
    CommandLine { program: "timeout".to_string(), args: all }
}

/// The exit status with which `timeout` reports that it stopped the program.
pub const TIMEOUT_EXIT_CODE: i32 = 124;

/// How a fuzzer run ended.
#[derive(Clone, Copy, PartialEq, Eq, Structural, Debug)]
pub enum RunExit {
    /// The fuzzer exited successfully.
    Succeeded,
    /// The fuzzer was stopped at its timeout; its output still counts.
    TimedOut,
    /// The fuzzer, or `timeout` itself, failed.
    Failed,
}

/// Reads the exit status of a run under `timeout`: whether it succeeded, and
/// its exit code if it has one.
pub fn run_exit(success: bool, code: Option<i32>) -> (exit: RunExit)
    ensures
        exit == (if success {
            RunExit::Succeeded
        } else if code == Some(TIMEOUT_EXIT_CODE) {
            RunExit::TimedOut
        } else {
            RunExit::Failed
        }),
{
    if success {
        RunExit::Succeeded
    } else {
        match code {
            Some(c) => if c == TIMEOUT_EXIT_CODE {
                RunExit::TimedOut
            } else {
                RunExit::Failed
            },
            None => RunExit::Failed,
        }
    }
}

/// How much the analyzer logs.
#[derive(Clone, Copy, PartialEq, Eq, Structural, Debug)]
pub enum LogLevel {
    Trace,
    Debug,
    Info,
    Warn,
    Error,
}

/// Whether two strings are equal.
fn str_eq(a: &str, b: &str) -> (r: bool)
    ensures
        r == (a@ == b@),
{
    let n = a.unicode_len();
    if n != b.unicode_len() {
        return false;
    }
    let mut i: usize = 0;
    while i < n
        invariant
            n == a@.len() == b@.len(),
            i <= n,
            forall|k: int| 0 <= k < i ==> a@[k] == b@[k],
        decreases n - i,
    {
        if a.get_char(i) != b.get_char(i) {
            return false;
        }
        i = i + 1;
    }
    assert(a@ =~= b@);
    true
}

/// The log level named by the `LOG_LEVEL` setting: `trace`, `debug`, `warn`
/// and `error` name theirs, anything else means `Info`.
pub fn log_level(name: &str) -> (level: LogLevel)
    ensures
        level == (if name@ == "trace"@ {
            LogLevel::Trace
        } else if name@ == "debug"@ {
            LogLevel::Debug
        } else if name@ == "warn"@ {
            LogLevel::Warn
        } else if name@ == "error"@ {
            LogLevel::Error
        } else {
            LogLevel::Info
        }),
{
    if str_eq(name, "trace") {
        LogLevel::Trace
    } else if str_eq(name, "debug") {
        LogLevel::Debug
    } else if str_eq(name, "warn") {
        LogLevel::Warn
    } else if str_eq(name, "error") {
        LogLevel::Error
    } else {
        LogLevel::Info
    }
}

} // verus!
