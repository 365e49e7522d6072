//! Reading the coverage statistics out of an ityfuzz log.
//!
//! The campaign's start is announced by a line such as
//! `INFO Ityfuzz start at 1749625856722`, and each coverage sample by one such
//! as `INFO Coverage stat: time-millis: 1749628484080 instructions: 957/2248
//! branches: 49/112`. A line is recognised the way the regular expressions
//! `.*Ityfuzz start at (\d+)` and `.*Coverage stat: time-millis: (\d+)
//! instructions: (\d+)/(\d+) branches: (\d+)/\d+` recognise it.

use vstd::prelude::*;
use vstd::string::StringExecFns;
use crate::clock::{current_time_label, is_time_label};
use crate::log::{field_value, read_field, FailureView, LogError, LogFailure, LogField};
use crate::normalize::{
    first_with_its_time, first_occurrence_within, has_time, is_time_normalization, normalize_by_time, TimedEntry,
};
use crate::pattern::{greedy_match, lemma_no_match_without_lead, spans_view, LinePattern};
use crate::run::{dir_glob, dir_glob_spec};
use crate::text::{
    decimal_value, parsed_u64, is_blank, is_blank_str, is_white_space, lemma_blank_text_lines, split_lines, split_whitespace,
    str_chars, strings_view, text_lines, whitespace_words,
};
use crate::types::{RunArgs, StatsEntry};

verus! {

/// The start line, `.*Ityfuzz start at (\d+)`.
pub open spec fn start_pattern() -> Seq<Seq<char>> {
    seq!["Ityfuzz start at "@, ""@]
}

/// The coverage line, `.*Coverage stat: time-millis: (\d+) instructions:
/// (\d+)/(\d+) branches: (\d+)/\d+`.
pub open spec fn coverage_pattern() -> Seq<Seq<char>> {
    seq![
        "Coverage stat: time-millis: "@,
        " instructions: "@,
        "/"@,
        " branches: "@,
        "/"@,
        ""@,
    ]
}

/// The state of a scan: the start time once found, and the samples so far.
pub type ScanState = Result<(Option<u64>, Seq<StatsEntry>), FailureView>;

/// The start time after `line`: the one known before, or the one that `line`
/// announces.
pub open spec fn start_after_line(began: Option<u64>, line: Seq<char>) -> Result<
    Option<u64>,
    FailureView,
> {
    if began is Some {
        Ok(began)
    } else {
        match greedy_match(line, start_pattern()) {
            None => Ok(None),
            Some(spans) => match field_value(line, spans[0], LogField::StartTimestamp) {
                Ok(v) => Ok(Some(v)),
                Err(e) => Err(e),
            },
        }
    }
}

/// The sample that `line` carries, for a campaign started at `start`.
/// The numbers are read in the order instructions covered, branches covered,
/// timestamp, total instructions; the first that cannot be read is the error.
pub open spec fn coverage_sample(line: Seq<char>, start: u64) -> Result<
    Option<StatsEntry>,
    FailureView,
> {
    match greedy_match(line, coverage_pattern()) {
        None => Ok(None),
        Some(spans) => match field_value(line, spans[1], LogField::InstructionsCovered) {
            Err(e) => Err(e),
            Ok(ic) => match field_value(line, spans[3], LogField::BranchesCovered) {
                Err(e) => Err(e),
                Ok(bc) => match field_value(line, spans[0], LogField::TimestampMillis) {
                    Err(e) => Err(e),
                    Ok(ts) => match field_value(line, spans[2], LogField::TotalInstructions) {
                        Err(e) => Err(e),
                        Ok(ti) => if ts >= start {
                            Ok(
                                Some(
                                    StatsEntry {
                                        instructions_covered: ic,
                                        branches_covered: bc,
                                        total_instructions: ti,
                                        time_taken_millis: (ts - start) as u64,
                                    },
                                ),
                            )
                        } else {
                            Err(FailureView::TimestampBeforeStart { timestamp: ts, start })
                        },
                    },
                },
            },
        },
    }
}

/// One line of the scan: the start line is looked for until found; from
/// then on, on the same line too, coverage lines give samples.
pub open spec fn scan_line(state: ScanState, line: Seq<char>) -> ScanState {
    match state {
        Err(e) => Err(e),
        Ok((began, entries)) => match start_after_line(began, line) {
            Err(e) => Err(e),
            Ok(None) => Ok((None, entries)),
            Ok(Some(b)) => match coverage_sample(line, b) {
                Err(e) => Err(e),
                Ok(None) => Ok((Some(b), entries)),
                Ok(Some(sample)) => Ok((Some(b), entries.push(sample))),
            },
        },
    }
}

/// The scan of the lines, in order; the first error stops it.
pub open spec fn scan_lines(lines: Seq<Seq<char>>) -> ScanState
    decreases lines.len(),
{
    if lines.len() == 0 {
        Ok((None, Seq::empty()))
    } else {
        scan_line(scan_lines(lines.drop_last()), lines.last())
    }
}

/// The samples of a log in the order of its lines, before they are ordered by
/// time: an error where a number cannot be read or a sample predates the
/// start, and where a log that is not blank has no start line.
pub open spec fn log_samples(log: Seq<char>) -> Result<Seq<StatsEntry>, FailureView> {
    match scan_lines(text_lines(log)) {
        Err(e) => Err(e),
        Ok((began, entries)) => if began is None && !is_blank(log) {
            Err(FailureView::MissingStart { field: LogField::StartTimestamp })
        } else {
            Ok(entries)
        },
    }
}

proof fn lemma_scan_without_start(lines: Seq<Seq<char>>)
    requires
        forall|k: int| 0 <= k < lines.len() ==> #[trigger] greedy_match(lines[k], start_pattern()) is None,
    ensures
        scan_lines(lines) == Ok::<(Option<u64>, Seq<StatsEntry>), FailureView>((None, Seq::empty())),
    decreases lines.len(),
{
    if lines.len() > 0 {
        let p = lines.drop_last();
        assert forall|k: int| 0 <= k < p.len() implies #[trigger] greedy_match(p[k], start_pattern()) is None by {
            assert(p[k] == lines[k]);
        }
        lemma_scan_without_start(p);
        assert(greedy_match(lines[lines.len() - 1], start_pattern()) is None);
    }
}

/// A blank log (empty, or white space only) is no error and has no samples.
pub proof fn lemma_blank_log_has_no_samples(log: Seq<char>)
    requires
        is_blank(log),
    ensures
        log_samples(log) == Ok::<Seq<StatsEntry>, FailureView>(Seq::empty()),
{
    reveal_strlit("Ityfuzz start at ");
    lemma_blank_text_lines(log);
    let lines = text_lines(log);
    assert forall|k: int| 0 <= k < lines.len() implies #[trigger] greedy_match(lines[k], start_pattern()) is None by {
        let line = lines[k];
        assert(is_blank(line));
        assert forall|i: int| 0 <= i < line.len() implies #[trigger] line[i] != start_pattern()[0][0] by {
            assert(is_white_space(line[i]));
        }
        lemma_no_match_without_lead(line, start_pattern());
    }
    lemma_scan_without_start(lines);
}

/// Output before the campaign's start line does not count: lines that hold
/// no start line, put before a log's lines, change nothing of its scan.
pub proof fn lemma_lines_before_start_do_not_count(before: Seq<Seq<char>>, lines: Seq<Seq<char>>)
    requires
        forall|k: int| 0 <= k < before.len() ==> #[trigger] greedy_match(before[k], start_pattern()) is None,
    ensures
        scan_lines(before + lines) == scan_lines(lines),
    decreases lines.len(),
{
    if lines.len() == 0 {
        assert(before + lines =~= before);
        lemma_scan_without_start(before);
    } else {
        lemma_lines_before_start_do_not_count(before, lines.drop_last());
        assert((before + lines).drop_last() =~= before + lines.drop_last());
        assert((before + lines).last() == lines.last());
    }
}

/// The digits that group `g` of the coverage pattern captures in `line`
/// (`g` = 0: time-millis, 1: instructions covered, 2: total instructions,
/// 3: branches covered).
pub open spec fn coverage_digits(line: Seq<char>, g: int) -> Seq<char> {
    match greedy_match(line, coverage_pattern()) {
        Some(spans) => line.subrange(spans[g].0, spans[g].1),
        None => Seq::empty(),
    }
}

/// The digits of the start time on a start line.
pub open spec fn start_digits(line: Seq<char>) -> Seq<char> {
    match greedy_match(line, start_pattern()) {
        Some(spans) => line.subrange(spans[0].0, spans[0].1),
        None => Seq::empty(),
    }
}

/// `lines[i]` is the first start line.
pub open spec fn is_first_start_line(lines: Seq<Seq<char>>, i: int) -> bool {
    &&& 0 <= i < lines.len()
    &&& greedy_match(lines[i], start_pattern()) is Some
    &&& forall|h: int| 0 <= h < i ==> #[trigger] greedy_match(lines[h], start_pattern()) is None
}

/// Sample `e` holds the numbers of the coverage line `lines[j]`, with its time
/// counted from the first start line `lines[i]`, on or before `lines[j]`: the
/// time is the line's time-millis minus the start time, as integers.
pub open spec fn sample_read_from(lines: Seq<Seq<char>>, i: int, j: int, e: StatsEntry) -> bool {
    &&& is_first_start_line(lines, i)
    &&& i <= j < lines.len()
    &&& greedy_match(lines[j], coverage_pattern()) is Some
    &&& e.instructions_covered == decimal_value(coverage_digits(lines[j], 1))
    &&& e.total_instructions == decimal_value(coverage_digits(lines[j], 2))
    &&& e.branches_covered == decimal_value(coverage_digits(lines[j], 3))
    &&& e.time_taken_millis + decimal_value(start_digits(lines[i])) == decimal_value(
        coverage_digits(lines[j], 0),
    )
}

/// Sample `e` is read from some coverage line of `lines`.
pub open spec fn sample_in_lines(lines: Seq<Seq<char>>, e: StatsEntry) -> bool {
    exists|i: int, j: int| #[trigger] sample_read_from(lines, i, j, e)
}

spec fn scan_facts(lines: Seq<Seq<char>>, began: Option<u64>, entries: Seq<StatsEntry>) -> bool {
    &&& (began matches Some(v) ==> exists|i: int|
        #[trigger] is_first_start_line(lines, i) && decimal_value(start_digits(lines[i])) == v)
    &&& (began is None ==> entries.len() == 0 && forall|h: int|
        0 <= h < lines.len() ==> #[trigger] greedy_match(lines[h], start_pattern()) is None)
    &&& forall|k: int| 0 <= k < entries.len() ==> sample_in_lines(lines, #[trigger] entries[k])
}

proof fn lemma_parsed_is_value(s: Seq<char>, v: u64)
    requires
        parsed_u64(s) == Some(v),
    ensures
        decimal_value(s) == v,
{
}

proof fn lemma_first_start_extends(lines: Seq<Seq<char>>, i: int)
    requires
        lines.len() > 0,
        is_first_start_line(lines.drop_last(), i),
    ensures
        is_first_start_line(lines, i),
        lines[i] == lines.drop_last()[i],
{
    let p = lines.drop_last();
    assert forall|h: int| 0 <= h < i implies #[trigger] greedy_match(lines[h], start_pattern()) is None by {
        assert(lines[h] == p[h]);
        assert(greedy_match(p[h], start_pattern()) is None);
    }
}

proof fn lemma_sample_extends(lines: Seq<Seq<char>>, e: StatsEntry)
    requires
        lines.len() > 0,
        sample_in_lines(lines.drop_last(), e),
    ensures
        sample_in_lines(lines, e),
{
    let p = lines.drop_last();
    let (i, j) = choose|i: int, j: int| #[trigger] sample_read_from(p, i, j, e);
    lemma_first_start_extends(lines, i);
    assert(lines[j] == p[j]);
    assert(sample_read_from(lines, i, j, e));
}

proof fn lemma_new_sample(lines: Seq<Seq<char>>, i: int, v: u64, sample: StatsEntry)
    requires
        lines.len() > 0,
        is_first_start_line(lines, i),
        i < lines.len(),
        decimal_value(start_digits(lines[i])) == v,
        coverage_sample(lines.last(), v) == Ok::<Option<StatsEntry>, FailureView>(Some(sample)),
    ensures
        sample_in_lines(lines, sample),
{
    let j = lines.len() - 1;
    let l = lines[j];
    let spans = greedy_match(l, coverage_pattern())->Some_0;
    let ic = field_value(l, spans[1], LogField::InstructionsCovered)->Ok_0;
    let bc = field_value(l, spans[3], LogField::BranchesCovered)->Ok_0;
    let ts = field_value(l, spans[0], LogField::TimestampMillis)->Ok_0;
    let ti = field_value(l, spans[2], LogField::TotalInstructions)->Ok_0;
    lemma_parsed_is_value(coverage_digits(l, 1), ic);
    lemma_parsed_is_value(coverage_digits(l, 3), bc);
    lemma_parsed_is_value(coverage_digits(l, 0), ts);
    lemma_parsed_is_value(coverage_digits(l, 2), ti);
    assert(sample_read_from(lines, i, j, sample));
}

proof fn lemma_scan_facts(lines: Seq<Seq<char>>)
    ensures
        scan_lines(lines) matches Ok((began, entries)) ==> scan_facts(lines, began, entries),
    decreases lines.len(),
{
    if lines.len() > 0 {
        let p = lines.drop_last();
        let l = lines.last();
        let n = p.len() as int;
        assert(lines[n] == l);
        lemma_scan_facts(p);
        if let Ok((b, es)) = scan_lines(p) {
            assert forall|k: int| 0 <= k < es.len() implies sample_in_lines(lines, #[trigger] es[k]) by {
                lemma_sample_extends(lines, es[k]);
            }
            match b {
                Some(v) => {
                    let i = choose|i: int| #[trigger] is_first_start_line(p, i) && decimal_value(start_digits(p[i])) == v;
                    lemma_first_start_extends(lines, i);
                    assert(is_first_start_line(lines, i) && decimal_value(start_digits(lines[i])) == v);
                    match coverage_sample(l, v) {
                        Ok(Some(sample)) => {
                            lemma_new_sample(lines, i, v, sample);
                            let es2 = es.push(sample);
                            assert forall|k: int| 0 <= k < es2.len() implies sample_in_lines(lines, #[trigger] es2[k]) by {
                                if k < es.len() {
                                    assert(es2[k] == es[k]);
                                }
                            }
                        },
                        _ => {},
                    }
                },
                None => {
                    assert forall|h: int| 0 <= h < n implies #[trigger] greedy_match(lines[h], start_pattern()) is None by {
                        assert(lines[h] == p[h]);
                        assert(greedy_match(p[h], start_pattern()) is None);
                    }
                    match greedy_match(l, start_pattern()) {
                        None => {
                            assert forall|h: int| 0 <= h < lines.len() implies #[trigger] greedy_match(lines[h], start_pattern()) is None by {
                                if h < n {
                                    assert(lines[h] == p[h]);
                                    assert(greedy_match(p[h], start_pattern()) is None);
                                }
                            }
                        },
                        Some(spans) => {
                            match field_value(l, spans[0], LogField::StartTimestamp) {
                                Ok(v) => {
                                    assert(is_first_start_line(lines, n));
                                    lemma_parsed_is_value(start_digits(l), v);
                                    assert(decimal_value(start_digits(lines[n])) == v);
                                    match coverage_sample(l, v) {
                                        Ok(Some(sample)) => {
                                            lemma_new_sample(lines, n, v, sample);
                                            assert(es.push(sample)[0] == sample);
                                        },
                                        _ => {},
                                    }
                                },
                                Err(_) => {},
                            }
                        },
                    }
                },
            }
        }
    }
}

/// Every sample that reading an ityfuzz log gives back holds the numbers of
/// one of its coverage lines, and its time is that line's time-millis minus the
/// start time of the log's first start line, as integers.
pub proof fn lemma_samples_are_read_from_log(log: Seq<char>, entries: Seq<StatsEntry>)
    requires
        log_samples(log) matches Ok(raw) && is_time_normalization(raw, entries),
    ensures
        forall|k: int| 0 <= k < entries.len() ==> sample_in_lines(text_lines(log), #[trigger] entries[k]),
{
    let raw = log_samples(log)->Ok_0;
    lemma_scan_facts(text_lines(log));
    assert forall|k: int| 0 <= k < entries.len() implies sample_in_lines(text_lines(log), #[trigger] entries[k]) by {
        assert(first_occurrence_within(raw, raw.len() as int, entries[k]));
        let m = choose|m: int| 0 <= m < raw.len() && #[trigger] raw[m] == entries[k] && first_with_its_time(raw, m);
        assert(sample_in_lines(text_lines(log), raw[m]));
    }
}

proof fn lemma_scan_error_persists(lines: Seq<Seq<char>>, i: int, e: FailureView)
    requires
        0 <= i <= lines.len(),
        scan_lines(lines.take(i)) == Err::<(Option<u64>, Seq<StatsEntry>), FailureView>(e),
    ensures
        scan_lines(lines) == Err::<(Option<u64>, Seq<StatsEntry>), FailureView>(e),
    decreases lines.len() - i,
{
    if i < lines.len() {
        assert(lines.take(i + 1).drop_last() =~= lines.take(i));
        lemma_scan_error_persists(lines, i + 1, e);
    } else {
        assert(lines.take(i) =~= lines);
    }
}

fn start_line_pattern() -> (p: LinePattern)
    ensures
        p@ == start_pattern(),
{
    let mut literals: Vec<Vec<char>> = Vec::new();
    literals.push(str_chars("Ityfuzz start at "));
    literals.push(str_chars(""));
    let p = LinePattern::new(literals);
    assert(p@ =~= start_pattern());
    p
}

fn coverage_line_pattern() -> (p: LinePattern)
    ensures
        p@ == coverage_pattern(),
{
    let mut literals: Vec<Vec<char>> = Vec::new();
    literals.push(str_chars("Coverage stat: time-millis: "));
    literals.push(str_chars(" instructions: "));
    literals.push(str_chars("/"));
    literals.push(str_chars(" branches: "));
    literals.push(str_chars("/"));
    literals.push(str_chars(""));
    let p = LinePattern::new(literals);
    assert(p@ =~= coverage_pattern());
    p
}

/// The start time after `line`, as `start_after_line` says.
fn line_start(start: &LinePattern, began: Option<u64>, line: &Vec<char>) -> (r: Result<
    Option<u64>,
    LogFailure,
>)
    requires
        start@ == start_pattern(),
    ensures
        match r {
            Ok(b) => start_after_line(began, line@) == Ok::<Option<u64>, FailureView>(b),
            Err(f) => start_after_line(began, line@) == Err::<Option<u64>, FailureView>(f@),
        },
{
    if began.is_some() {
        return Ok(began);
    }
    match start.greedy_captures(line) {
        None => Ok(None),
        Some(spans) => {
            assert(spans_view(spans@)[0] == (spans@[0].0 as int, spans@[0].1 as int));
            match read_field(line, spans[0], LogField::StartTimestamp) {
                Ok(v) => Ok(Some(v)),
                Err(f) => Err(f),
            }
        },
    }
}

/// The sample that `line` carries, as `coverage_sample` says.
fn line_sample(coverage: &LinePattern, line: &Vec<char>, start: u64) -> (r: Result<
    Option<StatsEntry>,
    LogFailure,
>)
    requires
        coverage@ == coverage_pattern(),
    ensures
        match r {
            Ok(s) => coverage_sample(line@, start) == Ok::<Option<StatsEntry>, FailureView>(s),
            Err(f) => coverage_sample(line@, start) == Err::<Option<StatsEntry>, FailureView>(f@),
        },
{
    match coverage.greedy_captures(line) {
        None => Ok(None),
        Some(spans) => {
            let ghost sv = spans_view(spans@);
            assert(sv[0] == (spans@[0].0 as int, spans@[0].1 as int));
            assert(sv[1] == (spans@[1].0 as int, spans@[1].1 as int));
            assert(sv[2] == (spans@[2].0 as int, spans@[2].1 as int));
            assert(sv[3] == (spans@[3].0 as int, spans@[3].1 as int));
            let ic = match read_field(line, spans[1], LogField::InstructionsCovered) {
                Ok(v) => v,
                Err(f) => return Err(f),
            };
            let bc = match read_field(line, spans[3], LogField::BranchesCovered) {
                Ok(v) => v,
                Err(f) => return Err(f),
            };
            let ts = match read_field(line, spans[0], LogField::TimestampMillis) {
                Ok(v) => v,
                Err(f) => return Err(f),
            };
            let ti = match read_field(line, spans[2], LogField::TotalInstructions) {
                Ok(v) => v,
                Err(f) => return Err(f),
            };
            if ts >= start {
                Ok(
                    Some(
                        StatsEntry {
                            instructions_covered: ic,
                            branches_covered: bc,
                            total_instructions: ti,
                            time_taken_millis: ts - start,
                        },
                    ),
                )
            } else {
                Err(LogFailure::TimestampBeforeStart { timestamp: ts, start })
            }
        },
    }
}

/// Reads the coverage samples of an ityfuzz log: the samples after the start
/// line, each timed from the start, ordered by time with one sample kept per
/// time (the first in the log).
pub fn parse_log(log_content: &str, contract_id: &str) -> (r: Result<Vec<StatsEntry>, LogError>)
    ensures
        match r {
            Ok(entries) => log_samples(log_content@) matches Ok(raw) && is_time_normalization(
                raw,
                entries@,
            ),
            Err(e) => log_samples(log_content@) == Err::<Seq<StatsEntry>, FailureView>(
                e.failure@,
            ) && e.contract_id@ == contract_id@,
        },
        r matches Ok(entries) ==> forall|k: int|
            0 <= k < entries@.len() ==> sample_in_lines(text_lines(log_content@), #[trigger] entries@[k]),
{
    let lines = split_lines(log_content);
    let ghost lv = lines@.map_values(|l: Vec<char>| l@);
    let start = start_line_pattern();
    let coverage = coverage_line_pattern();
    let mut began: Option<u64> = None;
    let mut entries: Vec<StatsEntry> = Vec::new();
    let mut i: usize = 0;
    while i < lines.len()
        invariant
            i <= lines.len(),
            lv == lines@.map_values(|l: Vec<char>| l@),
            lv == text_lines(log_content@),
            start@ == start_pattern(),
            coverage@ == coverage_pattern(),
            scan_lines(lv.take(i as int)) == Ok::<(Option<u64>, Seq<StatsEntry>), FailureView>(
                (began, entries@),
            ),
        decreases lines.len() - i,
    {
        let line = &lines[i];
        assert(lv.take(i + 1).drop_last() =~= lv.take(i as int));
        assert(lv.take(i + 1).last() == line@);
        match line_start(&start, began, line) {
            Err(f) => {
                proof {
                    lemma_scan_error_persists(lv, i + 1, f@);
                }
                return Err(LogError { contract_id: contract_id.to_string(), failure: f });
            },
            Ok(None) => {},
            Ok(Some(b)) => {
                began = Some(b);
                match line_sample(&coverage, line, b) {
                    Err(f) => {
                        proof {
                            lemma_scan_error_persists(lv, i + 1, f@);
                        }
                        return Err(LogError { contract_id: contract_id.to_string(), failure: f });
                    },
                    Ok(None) => {},
                    Ok(Some(sample)) => {
                        entries.push(sample);
                    },
                }
            },
        }
        i = i + 1;
    }
    assert(lv.take(i as int) =~= lv);
    if began.is_none() && !is_blank_str(log_content) {
        return Err(
            LogError { contract_id: contract_id.to_string(), failure: LogFailure::MissingStart { field: LogField::StartTimestamp } },
        );
    }
    let sorted = normalize_by_time(&entries);
    proof {
        lemma_samples_are_read_from_log(log_content@, sorted@);
    }
    Ok(sorted)
}

/// The work directory of a contract's run: `.work-dirs/<label>/<id>`.
pub open spec fn work_dir_spec(time_label: Seq<char>, contract_id: Seq<char>) -> Seq<char> {
    ".work-dirs/"@ + time_label + "/"@ + contract_id
}

/// The work directory of a contract's run started at `time_label`.
pub fn work_dir_path(time_label: &str, contract_id: &str) -> (dir: String)
    ensures
        dir@ == work_dir_spec(time_label@, contract_id@),
{
    ".work-dirs/".to_string().concat(time_label).concat("/").concat(contract_id)
}

/// The fuzzer's arguments for a contract: the words of the configured
/// options, then `-t <contract_dir>/*`, then `-w <work_dir>` if the run has a
/// work directory.
pub open spec fn fuzzer_args_spec(
    options: Seq<char>,
    contract_dir: Seq<char>,
    work_dir: Option<Seq<char>>,
) -> Seq<Seq<char>> {
    whitespace_words(options) + seq!["-t"@, dir_glob_spec(contract_dir)] + match work_dir {
        Some(w) => seq!["-w"@, w],
        None => Seq::empty(),
    }
}

/// How the ityfuzz arguments are laid out: the whitespace-separated words of
/// the options come first, in order; then `-t` with the glob of the contract's
/// directory; and last, only for a run with a work directory, `-w` and that
/// directory.
pub open spec fn fuzzer_args_layout(
    args: Seq<Seq<char>>,
    options: Seq<char>,
    contract_dir: Seq<char>,
    work_dir: Option<Seq<char>>,
) -> bool {
    let w = whitespace_words(options).len() as int;
    &&& args.take(w) == whitespace_words(options)
    &&& args[w] == "-t"@
    &&& args[w + 1] == contract_dir + "/*"@
    &&& match work_dir {
        Some(d) => args.len() == w + 4 && args[w + 2] == "-w"@ && args[w + 3] == d,
        None => args.len() == w + 2,
    }
}

/// The arguments built for ityfuzz have the layout `fuzzer_args_layout`
/// describes, for every options text, directory and work directory.
pub proof fn lemma_fuzzer_args_layout(
    options: Seq<char>,
    contract_dir: Seq<char>,
    work_dir: Option<Seq<char>>,
)
    ensures
        fuzzer_args_layout(
            fuzzer_args_spec(options, contract_dir, work_dir),
            options,
            contract_dir,
            work_dir,
        ),
{
    let a = fuzzer_args_spec(options, contract_dir, work_dir);
    let w = whitespace_words(options);
    assert(a.take(w.len() as int) =~= w);
}

/// The fuzzer's arguments for the contract in `contract_dir`.
pub fn fuzzer_arguments(fuzzer_options: &str, contract_dir: &str, work_dir: Option<String>) -> (args:
    Vec<String>)
    ensures
        strings_view(args@) == fuzzer_args_spec(
            fuzzer_options@,
            contract_dir@,
            match work_dir {
                Some(w) => Some(w@),
                None => None,
            },
        ),
        fuzzer_args_layout(
            strings_view(args@),
            fuzzer_options@,
            contract_dir@,
            match work_dir {
                Some(w) => Some(w@),
                None => None,
            },
        ),
{
    let ghost wd: Option<Seq<char>> = match &work_dir {
        Some(w) => Some(w@),
        None => None,
    };
    proof {
        lemma_fuzzer_args_layout(fuzzer_options@, contract_dir@, wd);
    }
    let mut args = split_whitespace(fuzzer_options);
    let ghost words = strings_view(args@);
    args.push("-t".to_string());
    args.push(dir_glob(contract_dir));
    assert(strings_view(args@) =~= words + seq!["-t"@, dir_glob_spec(contract_dir@)]);
    let ghost base = strings_view(args@);
    match work_dir {
        Some(w) => {
            let ghost wv = w@;
            args.push("-w".to_string());
            args.push(w);
            assert(strings_view(args@) =~= base + seq!["-w"@, wv]);
        },
        None => {
            assert(strings_view(args@) =~= base + Seq::<Seq<char>>::empty());
        },
    }
    args
}

/// The fuzzer's arguments for a contract in a run with settings `args`: with
/// a work directory labelled by the current time when the run asks for one.
pub fn run_fuzzer_arguments(args: &RunArgs, contract_dir: &str, contract_id: &str) -> (fuzzer_args:
    Vec<String>)
    ensures
        args.use_work_dir ==> exists|label: Seq<char>|
            is_time_label(label) && strings_view(fuzzer_args@) == fuzzer_args_spec(
                args.fuzzer_options@,
                contract_dir@,
                Some(work_dir_spec(label, contract_id@)),
            ),
        !args.use_work_dir ==> strings_view(fuzzer_args@) == fuzzer_args_spec(
            args.fuzzer_options@,
            contract_dir@,
            None,
        ),
{
    if args.use_work_dir {
        let label = current_time_label();
        let dir = work_dir_path(label.as_str(), contract_id);
        fuzzer_arguments(args.fuzzer_options.as_str(), contract_dir, Some(dir))
    } else {
        fuzzer_arguments(args.fuzzer_options.as_str(), contract_dir, None)
    }
}

/// What becomes of a contract's fuzzer output.
pub enum RunOutcome {
    /// The fuzzer printed nothing but white space: there is nothing to read.
    EmptyLog,
    /// The log could not be read.
    Unreadable(LogError),
    /// The log was read but holds no samples.
    NoSamples,
    /// The samples of the log, ordered by time.
    Samples(Vec<StatsEntry>),
}

/// Decides what becomes of the output of a contract's fuzzer run: a blank
/// output is skipped, otherwise the log is read, and its samples, if there are
/// any, are what the run gives.
pub fn assess_log(log_content: &str, contract_id: &str) -> (outcome: RunOutcome)
    ensures
        match outcome {
            RunOutcome::EmptyLog => is_blank(log_content@),
            RunOutcome::Unreadable(e) => !is_blank(log_content@) && log_samples(log_content@)
                == Err::<Seq<StatsEntry>, FailureView>(e.failure@) && e.contract_id@
                == contract_id@,
            RunOutcome::NoSamples => !is_blank(log_content@) && log_samples(log_content@)
                == Ok::<Seq<StatsEntry>, FailureView>(Seq::empty()),
            RunOutcome::Samples(entries) => !is_blank(log_content@) && (log_samples(
                log_content@,
            ) matches Ok(raw) && raw.len() > 0 && is_time_normalization(raw, entries@)),
        },
{
    if is_blank_str(log_content) {
        return RunOutcome::EmptyLog;
    }
    match parse_log(log_content, contract_id) {
        Err(e) => RunOutcome::Unreadable(e),
        Ok(entries) => {
            let ghost raw = log_samples(log_content@)->Ok_0;
            if entries.len() == 0 {
                proof {
                    if raw.len() > 0 {
                        assert(has_time(entries@, raw[0].spec_time()));
                    }
                    assert(raw =~= Seq::<StatsEntry>::empty());
                }
                RunOutcome::NoSamples
            } else {
                proof {
                    let x = entries@[0];
                    assert(first_occurrence_within(raw, raw.len() as int, x));
                }
                RunOutcome::Samples(entries)
            }
        },
    }
}

} // verus!
