# ityfuzz_analyzer

Coverage analysis for smart-contract fuzzing campaigns, written in Verus.

The library (`src/`) holds the rules of the analyzer, each with a contract
that Verus proves:

- `text`: characters, lines, words and decimal numbers of log text;
- `pattern`: the line patterns `L0 \d+ L1 ... \d+ Lk` by which log lines are
  recognised, with their leftmost and rightmost (`.*`-prefixed) matches;
- `normalize`: ordering samples by time, one per time point;
- `ityfuzz`, `mau`: reading the coverage samples out of the logs of the two
  fuzzers, the fuzzers' command lines, and what becomes of a run's output;
- `log`: read errors and their messages;
- `run`: file locations, the `timeout` command line, exit statuses, log levels;
- `clock`: time labels;
- `types`: the command line and the statistics.

`app/` is the command-line program around it: argument parsing, the thread
pool, the progress bar, processes, files and CSV output.
