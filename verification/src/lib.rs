//! Coverage-log analysis for fuzzing campaigns: the rules that turn a
//! fuzzer's textual output into coverage statistics, and the decisions that
//! the command-line driver takes around each fuzzer run.

pub mod text;
pub mod pattern;
pub mod normalize;
pub mod log;
pub mod types;
pub mod ityfuzz;
pub mod mau;
pub mod clock;
pub mod run;
