//! The command line of the analyzer and the statistics it collects.

use vstd::prelude::*;
use crate::normalize::TimedEntry;

verus! {

broadcast use vstd::string::group_string_axioms;

/// The analyzer's command line.
pub struct Cli {
    pub command: Commands,
}

/// What the analyzer is asked to do.
pub enum Commands {
    /// Run the fuzzer, analyze output, write CSVs, and plot results.
    Run(RunArgs),
    /// Plot results from existing CSV data in the output directory.
    Plot(PlotArgs),
}

/// The settings of a `run`.
pub struct RunArgs {
    /// Number of concurrent jobs to run.
    pub jobs: usize,
    /// Path to the fuzzer executable.
    pub fuzzer_path: String,
    /// Arguments given to the fuzzer before its `-t <target-contract-folder>/*`.
    pub fuzzer_options: String,
    /// Directory holding one directory per benchmark contract.
    pub benchmark_base_dir: String,
    /// Directory for the CSV files and the plot.
    pub output_dir: String,
    /// Timeout in seconds for the fuzzer on each contract.
    pub fuzz_timeout_seconds: u64,
    /// Whether each fuzzer run gets a work directory of its own.
    pub use_work_dir: bool,
}

/// The settings of a `plot`.
pub struct PlotArgs {
    /// Directory holding the CSV data files, where the plot is saved.
    pub output_dir: String,
}

impl RunArgs {
    /// The settings of a run over the contracts in `benchmark_base_dir`, with
    /// the command line's defaults for everything else: one job, the
    /// `ityfuzz` executable with options `evm --run-forever`, output in
    /// `analysis_output`, a 15 second timeout and no work directories.
    pub fn new(benchmark_base_dir: String) -> (args: RunArgs)
        ensures
            args.benchmark_base_dir@ == benchmark_base_dir@,
            args.jobs == 1,
            args.fuzzer_path@ == "ityfuzz"@,
            args.fuzzer_options@ == "evm --run-forever"@,
            args.output_dir@ == "analysis_output"@,
            args.fuzz_timeout_seconds == 15,
            !args.use_work_dir,
    {
        RunArgs {
            jobs: 1,
            fuzzer_path: "ityfuzz".to_string(),
            fuzzer_options: "evm --run-forever".to_string(),
            benchmark_base_dir,
            output_dir: "analysis_output".to_string(),
            fuzz_timeout_seconds: 15,
            use_work_dir: false,
        }
    }
}

impl PlotArgs {
    /// The settings of a plot with the command line's default directory,
    /// `analysis_output`.
    pub fn new() -> (args: PlotArgs)
        ensures
            args.output_dir@ == "analysis_output"@,
    {
        PlotArgs { output_dir: "analysis_output".to_string() }
    }
}

/// One coverage sample of a fuzzing campaign.
#[derive(Clone, Copy, PartialEq, Eq, Structural, Debug)]
pub struct StatsEntry {
    pub instructions_covered: u64,
    pub branches_covered: u64,
    pub total_instructions: u64,
    /// Milliseconds since the campaign started.
    pub time_taken_millis: u64,
}

impl TimedEntry for StatsEntry {
    open spec fn spec_time(&self) -> u64 {
        self.time_taken_millis
    }

    fn time(&self) -> (t: u64) {
        self.time_taken_millis
    }
}

} // verus!
