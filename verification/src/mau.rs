//! Reading the coverage statistics out of a GPU fuzzer (mau) log.
//!
//! The campaign's start is announced by a line holding `Began at <nanos>`,
//! and each coverage sample by one holding `Instruction Covered: <n>; Branch
//! Covered: <n> Timestamp Nanos: <nanos>`. A line is recognised the way the
//! unanchored regular expressions `Began at (\d+)` and `Instruction Covered:
//! (\d+); Branch Covered: (\d+) Timestamp Nanos: (\d+)` recognise it: at the
//! leftmost place where they match.

use vstd::prelude::*;
use crate::log::{field_value, read_field, FailureView, LogError, LogFailure, LogField};
use crate::normalize::{
    first_with_its_time, first_occurrence_within, has_time, is_time_normalization, normalize_by_time, TimedEntry,
};
use crate::pattern::{leftmost_match, lemma_no_match_without_lead, spans_view, LinePattern};
use crate::run::{dir_glob, dir_glob_spec, path_join, path_join_spec};
use crate::text::{
    contains_text, decimal_value, parsed_u64, is_blank, is_blank_str, is_white_space, lemma_blank_text_lines, split_lines,
    split_whitespace, str_chars, str_contains, strings_view, text_lines, whitespace_words,
};

verus! {

/// One coverage sample of a GPU fuzzing campaign.
#[derive(Clone, Copy, PartialEq, Eq, Structural, Debug)]
pub struct StatsEntry {
    pub instructions_covered: u64,
    pub branches_covered: u64,
    /// Nanoseconds since the campaign started.
    pub time_taken_nanos: u64,
}

impl TimedEntry for StatsEntry {
    open spec fn spec_time(&self) -> u64 {
        self.time_taken_nanos
    }

    fn time(&self) -> (t: u64) {
        self.time_taken_nanos
    }
}

/// The start line, `Began at (\d+)`.
pub open spec fn began_pattern() -> Seq<Seq<char>> {
    seq!["Began at "@, ""@]
}

/// The coverage line, `Instruction Covered: (\d+); Branch Covered: (\d+)
/// Timestamp Nanos: (\d+)`.
pub open spec fn stats_pattern() -> Seq<Seq<char>> {
    seq!["Instruction Covered: "@, "; Branch Covered: "@, " Timestamp Nanos: "@, ""@]
}

/// The state of a scan: the start time once found, and the samples so far.
pub type ScanState = Result<(Option<u64>, Seq<StatsEntry>), FailureView>;

/// The start time after `line`: the one known before, or the one that `line`
/// announces.
pub open spec fn began_after_line(began: Option<u64>, line: Seq<char>) -> Result<
    Option<u64>,
    FailureView,
> {
    if began is Some {
        Ok(began)
    } else {
        match leftmost_match(line, began_pattern()) {
            None => Ok(None),
            Some(spans) => match field_value(line, spans[0], LogField::BeganAt) {
                Ok(v) => Ok(Some(v)),
                Err(e) => Err(e),
            },
        }
    }
}

/// The sample that `line` carries, for a campaign started at `start`; a
/// sample dated before the start is left out. The numbers are read in the
/// order instructions, branches, timestamp; the first that cannot be read is
/// the error.
pub open spec fn stats_sample(line: Seq<char>, start: u64) -> Result<
    Option<StatsEntry>,
    FailureView,
> {
    match leftmost_match(line, stats_pattern()) {
        None => Ok(None),
        Some(spans) => match field_value(line, spans[0], LogField::InstructionsCovered) {
            Err(e) => Err(e),
            Ok(ic) => match field_value(line, spans[1], LogField::BranchesCovered) {
                Err(e) => Err(e),
                Ok(bc) => match field_value(line, spans[2], LogField::TimestampNanos) {
                    Err(e) => Err(e),
                    Ok(ts) => if ts >= start {
                        Ok(
                            Some(
                                StatsEntry {
                                    instructions_covered: ic,
                                    branches_covered: bc,
                                    time_taken_nanos: (ts - start) as u64,
                                },
                            ),
                        )
                    } else {
                        Ok(None)
                    },
                },
            },
        },
    }
}

/// One line of the scan: the start line is looked for until found; from
/// then on, on the same line too, coverage lines give samples.
pub open spec fn scan_line(state: ScanState, line: Seq<char>) -> ScanState {
    match state {
        Err(e) => Err(e),
        Ok((began, entries)) => match began_after_line(began, line) {
            Err(e) => Err(e),
            Ok(None) => Ok((None, entries)),
            Ok(Some(b)) => match stats_sample(line, b) {
                Err(e) => Err(e),
                Ok(None) => Ok((Some(b), entries)),
                Ok(Some(sample)) => Ok((Some(b), entries.push(sample))),
            },
        },
    }
}

/// The scan of the lines, in order; the first error stops it.
pub open spec fn scan_lines(lines: Seq<Seq<char>>) -> ScanState
    decreases lines.len(),
{
    if lines.len() == 0 {
        Ok((None, Seq::empty()))
    } else {
        scan_line(scan_lines(lines.drop_last()), lines.last())
    }
}

/// Some line of the text is a coverage line.
pub open spec fn has_stats_line(lines: Seq<Seq<char>>) -> bool {
    exists|k: int| 0 <= k < lines.len() && #[trigger] leftmost_match(lines[k], stats_pattern()) is Some
}

/// The samples of a log in the order of its lines, before they are ordered by
/// time: an error where a number cannot be read, and where a log that is not
/// blank has coverage lines but no start line.
pub open spec fn log_samples(log: Seq<char>) -> Result<Seq<StatsEntry>, FailureView> {
    match scan_lines(text_lines(log)) {
        Err(e) => Err(e),
        Ok((began, entries)) => if began is None && !is_blank(log) && has_stats_line(
            text_lines(log),
        ) {
            Err(FailureView::MissingStart { field: LogField::BeganAt })
        } else {
            Ok(entries)
        },
    }
}

proof fn lemma_scan_without_start(lines: Seq<Seq<char>>)
    requires
        forall|k: int| 0 <= k < lines.len() ==> #[trigger] leftmost_match(lines[k], began_pattern()) is None,
    ensures
        scan_lines(lines) == Ok::<(Option<u64>, Seq<StatsEntry>), FailureView>((None, Seq::empty())),
    decreases lines.len(),
{
    if lines.len() > 0 {
        let p = lines.drop_last();
        assert forall|k: int| 0 <= k < p.len() implies #[trigger] leftmost_match(p[k], began_pattern()) is None by {
            assert(p[k] == lines[k]);
        }
        lemma_scan_without_start(p);
        assert(leftmost_match(lines[lines.len() - 1], began_pattern()) is None);
    }
}

/// A blank log (empty, or white space only) is no error and has no samples.
pub proof fn lemma_blank_log_has_no_samples(log: Seq<char>)
    requires
        is_blank(log),
    ensures
        log_samples(log) == Ok::<Seq<StatsEntry>, FailureView>(Seq::empty()),
{
    reveal_strlit("Began at ");
    lemma_blank_text_lines(log);
    let lines = text_lines(log);
    assert forall|k: int| 0 <= k < lines.len() implies #[trigger] leftmost_match(lines[k], began_pattern()) is None by {
        let line = lines[k];
        assert(is_blank(line));
        assert forall|i: int| 0 <= i < line.len() implies #[trigger] line[i] != began_pattern()[0][0] by {
            assert(is_white_space(line[i]));
        }
        lemma_no_match_without_lead(line, began_pattern());
    }
    lemma_scan_without_start(lines);
}

/// Output before the campaign's start line does not count: lines that hold
/// no start line, put before a log's lines, change nothing of its scan.
pub proof fn lemma_lines_before_start_do_not_count(before: Seq<Seq<char>>, lines: Seq<Seq<char>>)
    requires
        forall|k: int| 0 <= k < before.len() ==> #[trigger] leftmost_match(before[k], began_pattern()) is None,
    ensures
        scan_lines(before + lines) == scan_lines(lines),
    decreases lines.len(),
{
    if lines.len() == 0 {
        assert(before + lines =~= before);
        lemma_scan_without_start(before);
    } else {
        lemma_lines_before_start_do_not_count(before, lines.drop_last());
        assert((before + lines).drop_last() =~= before + lines.drop_last());
        assert((before + lines).last() == lines.last());
    }
}

/// The digits that group `g` of the coverage pattern captures in `line`
/// (`g` = 0: instructions covered, 1: branches covered, 2: timestamp nanos).
pub open spec fn stats_digits(line: Seq<char>, g: int) -> Seq<char> {
    match leftmost_match(line, stats_pattern()) {
        Some(spans) => line.subrange(spans[g].0, spans[g].1),
        None => Seq::empty(),
    }
}

/// The digits of the start time on a start line.
pub open spec fn began_digits(line: Seq<char>) -> Seq<char> {
    match leftmost_match(line, began_pattern()) {
        Some(spans) => line.subrange(spans[0].0, spans[0].1),
        None => Seq::empty(),
    }
}

/// `lines[i]` is the first start line.
pub open spec fn is_first_began_line(lines: Seq<Seq<char>>, i: int) -> bool {
    &&& 0 <= i < lines.len()
    &&& leftmost_match(lines[i], began_pattern()) is Some
    &&& forall|h: int| 0 <= h < i ==> #[trigger] leftmost_match(lines[h], began_pattern()) is None
}

/// Sample `e` holds the numbers of the coverage line `lines[j]`, with its time
/// counted from the first start line `lines[i]`, on or before `lines[j]`: the
/// time is the line's timestamp minus the start time, as integers.
pub open spec fn sample_read_from(lines: Seq<Seq<char>>, i: int, j: int, e: StatsEntry) -> bool {
    &&& is_first_began_line(lines, i)
    &&& i <= j < lines.len()
    &&& leftmost_match(lines[j], stats_pattern()) is Some
    &&& e.instructions_covered == decimal_value(stats_digits(lines[j], 0))
    &&& e.branches_covered == decimal_value(stats_digits(lines[j], 1))
    &&& e.time_taken_nanos + decimal_value(began_digits(lines[i])) == decimal_value(
        stats_digits(lines[j], 2),
    )
}

/// Sample `e` is read from some coverage line of `lines`.
pub open spec fn sample_in_lines(lines: Seq<Seq<char>>, e: StatsEntry) -> bool {
    exists|i: int, j: int| #[trigger] sample_read_from(lines, i, j, e)
}

spec fn scan_facts(lines: Seq<Seq<char>>, began: Option<u64>, entries: Seq<StatsEntry>) -> bool {
    &&& (began matches Some(v) ==> exists|i: int|
        #[trigger] is_first_began_line(lines, i) && decimal_value(began_digits(lines[i])) == v)
    &&& (began is None ==> entries.len() == 0 && forall|h: int|
        0 <= h < lines.len() ==> #[trigger] leftmost_match(lines[h], began_pattern()) is None)
    &&& forall|k: int| 0 <= k < entries.len() ==> sample_in_lines(lines, #[trigger] entries[k])
}

proof fn lemma_parsed_is_value(s: Seq<char>, v: u64)
    requires
        parsed_u64(s) == Some(v),
    ensures
        decimal_value(s) == v,
{
}

proof fn lemma_first_began_extends(lines: Seq<Seq<char>>, i: int)
    requires
        lines.len() > 0,
        is_first_began_line(lines.drop_last(), i),
    ensures
        is_first_began_line(lines, i),
        lines[i] == lines.drop_last()[i],
{
    let p = lines.drop_last();
    assert forall|h: int| 0 <= h < i implies #[trigger] leftmost_match(lines[h], began_pattern()) is None by {
        assert(lines[h] == p[h]);
        assert(leftmost_match(p[h], began_pattern()) is None);
    }
}

proof fn lemma_sample_extends(lines: Seq<Seq<char>>, e: StatsEntry)
    requires
        lines.len() > 0,
        sample_in_lines(lines.drop_last(), e),
    ensures
        sample_in_lines(lines, e),
{
    let p = lines.drop_last();
    let (i, j) = choose|i: int, j: int| #[trigger] sample_read_from(p, i, j, e);
    lemma_first_began_extends(lines, i);
    assert(lines[j] == p[j]);
    assert(sample_read_from(lines, i, j, e));
}

proof fn lemma_new_sample(lines: Seq<Seq<char>>, i: int, v: u64, sample: StatsEntry)
    requires
        lines.len() > 0,
        is_first_began_line(lines, i),
        i < lines.len(),
        decimal_value(began_digits(lines[i])) == v,
        stats_sample(lines.last(), v) == Ok::<Option<StatsEntry>, FailureView>(Some(sample)),
    ensures
        sample_in_lines(lines, sample),
{
    let j = lines.len() - 1;
    let l = lines[j];
    let spans = leftmost_match(l, stats_pattern())->Some_0;
    let ic = field_value(l, spans[0], LogField::InstructionsCovered)->Ok_0;
    let bc = field_value(l, spans[1], LogField::BranchesCovered)->Ok_0;
    let ts = field_value(l, spans[2], LogField::TimestampNanos)->Ok_0;
    lemma_parsed_is_value(stats_digits(l, 0), ic);
    lemma_parsed_is_value(stats_digits(l, 1), bc);
    lemma_parsed_is_value(stats_digits(l, 2), ts);
    assert(sample_read_from(lines, i, j, sample));
}

proof fn lemma_scan_facts(lines: Seq<Seq<char>>)
    ensures
        scan_lines(lines) matches Ok((began, entries)) ==> scan_facts(lines, began, entries),
    decreases lines.len(),
{
    if lines.len() > 0 {
        let p = lines.drop_last();
        let l = lines.last();
        let n = p.len() as int;
        assert(lines[n] == l);
        lemma_scan_facts(p);
        if let Ok((b, es)) = scan_lines(p) {
            assert forall|k: int| 0 <= k < es.len() implies sample_in_lines(lines, #[trigger] es[k]) by {
                lemma_sample_extends(lines, es[k]);
            }
            match b {
                Some(v) => {
                    let i = choose|i: int| #[trigger] is_first_began_line(p, i) && decimal_value(began_digits(p[i])) == v;
                    lemma_first_began_extends(lines, i);
                    assert(is_first_began_line(lines, i) && decimal_value(began_digits(lines[i])) == v);
                    match stats_sample(l, v) {
                        Ok(Some(sample)) => {
                            lemma_new_sample(lines, i, v, sample);
                            let es2 = es.push(sample);
                            assert forall|k: int| 0 <= k < es2.len() implies sample_in_lines(lines, #[trigger] es2[k]) by {
                                if k < es.len() {
                                    assert(es2[k] == es[k]);
                                }
                            }
                        },
                        _ => {},
                    }
                },
                None => {
                    assert forall|h: int| 0 <= h < n implies #[trigger] leftmost_match(lines[h], began_pattern()) is None by {
                        assert(lines[h] == p[h]);
                        assert(leftmost_match(p[h], began_pattern()) is None);
                    }
                    match leftmost_match(l, began_pattern()) {
                        None => {
                            assert forall|h: int| 0 <= h < lines.len() implies #[trigger] leftmost_match(lines[h], began_pattern()) is None by {
                                if h < n {
                                    assert(lines[h] == p[h]);
                                    assert(leftmost_match(p[h], began_pattern()) is None);
                                }
                            }
                        },
                        Some(spans) => {
                            match field_value(l, spans[0], LogField::BeganAt) {
                                Ok(v) => {
                                    assert(is_first_began_line(lines, n));
                                    lemma_parsed_is_value(began_digits(l), v);
                                    assert(decimal_value(began_digits(lines[n])) == v);
                                    match stats_sample(l, v) {
                                        Ok(Some(sample)) => {
                                            lemma_new_sample(lines, n, v, sample);
                                            assert(es.push(sample)[0] == sample);
                                        },
                                        _ => {},
                                    }
                                },
                                Err(_) => {},
                            }
                        },
                    }
                },
            }
        }
    }
}

/// Every sample that reading a GPU fuzzer log gives back holds the numbers of
/// one of its coverage lines, and its time is that line's timestamp minus the
/// start time of the log's first start line, as integers.
pub proof fn lemma_samples_are_read_from_log(log: Seq<char>, entries: Seq<StatsEntry>)
    requires
        log_samples(log) matches Ok(raw) && is_time_normalization(raw, entries),
    ensures
        forall|k: int| 0 <= k < entries.len() ==> sample_in_lines(text_lines(log), #[trigger] entries[k]),
{
    let raw = log_samples(log)->Ok_0;
    lemma_scan_facts(text_lines(log));
    assert forall|k: int| 0 <= k < entries.len() implies sample_in_lines(text_lines(log), #[trigger] entries[k]) by {
        assert(first_occurrence_within(raw, raw.len() as int, entries[k]));
        let m = choose|m: int| 0 <= m < raw.len() && #[trigger] raw[m] == entries[k] && first_with_its_time(raw, m);
        assert(sample_in_lines(text_lines(log), raw[m]));
    }
}

proof fn lemma_scan_error_persists(lines: Seq<Seq<char>>, i: int, e: FailureView)
    requires
        0 <= i <= lines.len(),
        scan_lines(lines.take(i)) == Err::<(Option<u64>, Seq<StatsEntry>), FailureView>(e),
    ensures
        scan_lines(lines) == Err::<(Option<u64>, Seq<StatsEntry>), FailureView>(e),
    decreases lines.len() - i,
{
    if i < lines.len() {
        assert(lines.take(i + 1).drop_last() =~= lines.take(i));
        lemma_scan_error_persists(lines, i + 1, e);
    } else {
        assert(lines.take(i) =~= lines);
    }
}

fn began_line_pattern() -> (p: LinePattern)
    ensures
        p@ == began_pattern(),
{
    let mut literals: Vec<Vec<char>> = Vec::new();
    literals.push(str_chars("Began at "));
    literals.push(str_chars(""));
    let p = LinePattern::new(literals);
    assert(p@ =~= began_pattern());
    p
}

fn stats_line_pattern() -> (p: LinePattern)
    ensures
        p@ == stats_pattern(),
{
    let mut literals: Vec<Vec<char>> = Vec::new();
    literals.push(str_chars("Instruction Covered: "));
    literals.push(str_chars("; Branch Covered: "));
    literals.push(str_chars(" Timestamp Nanos: "));
    literals.push(str_chars(""));
    let p = LinePattern::new(literals);
    assert(p@ =~= stats_pattern());
    p
}

/// The start time after `line`, as `began_after_line` says.
fn line_began(pattern: &LinePattern, began: Option<u64>, line: &Vec<char>) -> (r: Result<
    Option<u64>,
    LogFailure,
>)
    requires
        pattern@ == began_pattern(),
    ensures
        match r {
            Ok(b) => began_after_line(began, line@) == Ok::<Option<u64>, FailureView>(b),
            Err(f) => began_after_line(began, line@) == Err::<Option<u64>, FailureView>(f@),
        },
{
    if began.is_some() {
        return Ok(began);
    }
    match pattern.leftmost_captures(line) {
        None => Ok(None),
        Some(spans) => {
            assert(spans_view(spans@)[0] == (spans@[0].0 as int, spans@[0].1 as int));
            match read_field(line, spans[0], LogField::BeganAt) {
                Ok(v) => Ok(Some(v)),
                Err(f) => Err(f),
            }
        },
    }
}

/// The sample that `line` carries, as `stats_sample` says.
fn line_sample(pattern: &LinePattern, line: &Vec<char>, start: u64) -> (r: Result<
    Option<StatsEntry>,
    LogFailure,
>)
    requires
        pattern@ == stats_pattern(),
    ensures
        match r {
            Ok(s) => stats_sample(line@, start) == Ok::<Option<StatsEntry>, FailureView>(s),
            Err(f) => stats_sample(line@, start) == Err::<Option<StatsEntry>, FailureView>(f@),
        },
{
    match pattern.leftmost_captures(line) {
        None => Ok(None),
        Some(spans) => {
            let ghost sv = spans_view(spans@);
            assert(sv[0] == (spans@[0].0 as int, spans@[0].1 as int));
            assert(sv[1] == (spans@[1].0 as int, spans@[1].1 as int));
            assert(sv[2] == (spans@[2].0 as int, spans@[2].1 as int));
            let ic = match read_field(line, spans[0], LogField::InstructionsCovered) {
                Ok(v) => v,
                Err(f) => return Err(f),
            };
            let bc = match read_field(line, spans[1], LogField::BranchesCovered) {
                Ok(v) => v,
                Err(f) => return Err(f),
            };
            let ts = match read_field(line, spans[2], LogField::TimestampNanos) {
                Ok(v) => v,
                Err(f) => return Err(f),
            };
            if ts >= start {
                Ok(
                    Some(
                        StatsEntry {
                            instructions_covered: ic,
                            branches_covered: bc,
                            time_taken_nanos: ts - start,
                        },
                    ),
                )
            } else {
                Ok(None)
            }
        },
    }
}

/// Whether some line is a coverage line.
fn any_stats_line(pattern: &LinePattern, lines: &Vec<Vec<char>>) -> (r: bool)
    requires
        pattern@ == stats_pattern(),
    ensures
        r == has_stats_line(lines@.map_values(|l: Vec<char>| l@)),
{
    let ghost lv = lines@.map_values(|l: Vec<char>| l@);
    let mut i: usize = 0;
    while i < lines.len()
        invariant
            i <= lines.len(),
            pattern@ == stats_pattern(),
            lv == lines@.map_values(|l: Vec<char>| l@),
            forall|k: int| 0 <= k < i ==> #[trigger] leftmost_match(lv[k], stats_pattern()) is None,
        decreases lines.len() - i,
    {
        assert(lv[i as int] == lines@[i as int]@);
        if pattern.leftmost_captures(&lines[i]).is_some() {
            return true;
        }
        i = i + 1;
    }
    false
}

/// Reads the coverage samples of a GPU fuzzer log: the samples after the
/// start line that are not dated before it, each timed from the start,
/// ordered by time with one sample kept per time (the first in the log).
pub fn parse_log(log_content: &str, contract_id: &str) -> (r: Result<Vec<StatsEntry>, LogError>)
    ensures
        match r {
            Ok(entries) => log_samples(log_content@) matches Ok(raw) && is_time_normalization(
                raw,
                entries@,
            ),
            Err(e) => log_samples(log_content@) == Err::<Seq<StatsEntry>, FailureView>(
                e.failure@,
            ) && e.contract_id@ == contract_id@,
        },
        r matches Ok(entries) ==> forall|k: int|
            0 <= k < entries@.len() ==> sample_in_lines(text_lines(log_content@), #[trigger] entries@[k]),
{
    let lines = split_lines(log_content);
    let ghost lv = lines@.map_values(|l: Vec<char>| l@);
    let began_re = began_line_pattern();
    let stats_re = stats_line_pattern();
    let mut began: Option<u64> = None;
    let mut entries: Vec<StatsEntry> = Vec::new();
    let mut i: usize = 0;
    while i < lines.len()
        invariant
            i <= lines.len(),
            lv == lines@.map_values(|l: Vec<char>| l@),
            lv == text_lines(log_content@),
            began_re@ == began_pattern(),
            stats_re@ == stats_pattern(),
            scan_lines(lv.take(i as int)) == Ok::<(Option<u64>, Seq<StatsEntry>), FailureView>(
                (began, entries@),
            ),
        decreases lines.len() - i,
    {
        let line = &lines[i];
        assert(lv.take(i + 1).drop_last() =~= lv.take(i as int));
        assert(lv.take(i + 1).last() == line@);
        match line_began(&began_re, began, line) {
            Err(f) => {
                proof {
                    lemma_scan_error_persists(lv, i + 1, f@);
                }
                return Err(LogError { contract_id: contract_id.to_string(), failure: f });
            },
            Ok(None) => {},
            Ok(Some(b)) => {
                began = Some(b);
                match line_sample(&stats_re, line, b) {
                    Err(f) => {
                        proof {
                            lemma_scan_error_persists(lv, i + 1, f@);
                        }
                        return Err(LogError { contract_id: contract_id.to_string(), failure: f });
                    },
                    Ok(None) => {},
                    Ok(Some(sample)) => {
                        entries.push(sample);
                    },
                }
            },
        }
        i = i + 1;
    }
    assert(lv.take(i as int) =~= lv);
    if began.is_none() && !is_blank_str(log_content) && any_stats_line(&stats_re, &lines) {
        return Err(
            LogError { contract_id: contract_id.to_string(), failure: LogFailure::MissingStart { field: LogField::BeganAt } },
        );
    }
    let sorted = normalize_by_time(&entries);
    proof {
        lemma_samples_are_read_from_log(log_content@, sorted@);
    }
    Ok(sorted)
}

/// The PTX kernel of a contract: `kernel.ptx` in its directory.
pub open spec fn ptx_path_spec(contract_dir: Seq<char>) -> Seq<char> {
    path_join_spec(contract_dir, "kernel.ptx"@)
}

/// The path of the PTX kernel of the contract in `contract_dir`.
pub fn ptx_path(contract_dir: &str) -> (path: String)
    ensures
        path@ == ptx_path_spec(contract_dir@),
{
    path_join(contract_dir, "kernel.ptx")
}

/// The fuzzer's arguments for a contract: the words of the configured
/// options; then, when PTX is asked for and the contract's kernel exists,
/// `--ptx-path <kernel> --gpu-dev 0`; then `-t <contract_dir>/*`. When PTX is
/// asked for but the kernel is missing, the contract is fuzzed without it.
pub open spec fn fuzzer_args_spec(
    options: Seq<char>,
    contract_dir: Seq<char>,
    use_ptx: bool,
    ptx_found: bool,
) -> Seq<Seq<char>> {
    whitespace_words(options) + (if use_ptx && ptx_found {
        seq!["--ptx-path"@, ptx_path_spec(contract_dir), "--gpu-dev"@, "0"@]
    } else {
        Seq::empty()
    }) + seq!["-t"@, dir_glob_spec(contract_dir)]
}

/// How the GPU fuzzer's arguments are laid out: the whitespace-separated words
/// of the options come first, in order; then, only when PTX is asked for and
/// the kernel exists, `--ptx-path`, the kernel's path, `--gpu-dev` and `0`;
/// and last `-t` with the glob of the contract's directory.
pub open spec fn fuzzer_args_layout(
    args: Seq<Seq<char>>,
    options: Seq<char>,
    contract_dir: Seq<char>,
    use_ptx: bool,
    ptx_found: bool,
) -> bool {
    let w = whitespace_words(options).len() as int;
    let extra: int = if use_ptx && ptx_found { 4 } else { 0 };
    &&& args.len() == w + extra + 2
    &&& args.take(w) == whitespace_words(options)
    &&& (use_ptx && ptx_found ==> args[w] == "--ptx-path"@ && args[w + 1] == path_join_spec(
        contract_dir,
        "kernel.ptx"@,
    ) && args[w + 2] == "--gpu-dev"@ && args[w + 3] == "0"@)
    &&& args[args.len() - 2] == "-t"@
    &&& args[args.len() - 1] == contract_dir + "/*"@
}

/// The arguments built for the GPU fuzzer have the layout `fuzzer_args_layout`
/// describes, for every options text, directory and PTX setting.
pub proof fn lemma_fuzzer_args_layout(
    options: Seq<char>,
    contract_dir: Seq<char>,
    use_ptx: bool,
    ptx_found: bool,
)
    ensures
        fuzzer_args_layout(
            fuzzer_args_spec(options, contract_dir, use_ptx, ptx_found),
            options,
            contract_dir,
            use_ptx,
            ptx_found,
        ),
{
    let a = fuzzer_args_spec(options, contract_dir, use_ptx, ptx_found);
    let w = whitespace_words(options);
    assert(a.take(w.len() as int) =~= w);
}

/// The fuzzer's arguments for the contract in `contract_dir`, where
/// `ptx_found` tells whether its kernel file exists.
pub fn fuzzer_arguments(fuzzer_options: &str, contract_dir: &str, use_ptx: bool, ptx_found: bool) -> (args:
    Vec<String>)
    ensures
        strings_view(args@) == fuzzer_args_spec(fuzzer_options@, contract_dir@, use_ptx, ptx_found),
        fuzzer_args_layout(strings_view(args@), fuzzer_options@, contract_dir@, use_ptx, ptx_found),
{
    proof {
        lemma_fuzzer_args_layout(fuzzer_options@, contract_dir@, use_ptx, ptx_found);
    }
    let mut args = split_whitespace(fuzzer_options);
    let ghost words = strings_view(args@);
    if use_ptx && ptx_found {
        args.push("--ptx-path".to_string());
        args.push(ptx_path(contract_dir));
        args.push("--gpu-dev".to_string());
        args.push("0".to_string());
        assert(strings_view(args@) =~= words + seq![
            "--ptx-path"@,
            ptx_path_spec(contract_dir@),
            "--gpu-dev"@,
            "0"@,
        ]);
    } else {
        assert(strings_view(args@) =~= words + Seq::<Seq<char>>::empty());
    }
    let ghost mid = strings_view(args@);
    args.push("-t".to_string());
    args.push(dir_glob(contract_dir));
    assert(strings_view(args@) =~= mid + seq!["-t"@, dir_glob_spec(contract_dir@)]);
    args
}

/// The marker of a CUDA failure in the fuzzer's output.
pub open spec fn cuda_error_marker() -> Seq<char> {
    "SYSTEM ERROR : [Cuda]"@
}

/// What becomes of a contract's fuzzer output.
pub enum RunOutcome {
    /// The fuzzer hit a CUDA error, and the whole analysis stops.
    CudaAbort,
    /// The fuzzer hit a CUDA error, and this contract is skipped.
    CudaSkip,
    /// The fuzzer printed nothing but white space: there is nothing to read.
    EmptyLog,
    /// The log could not be read.
    Unreadable(LogError),
    /// The log was read but holds no samples.
    NoSamples,
    /// The samples of the log, ordered by time.
    Samples(Vec<StatsEntry>),
}

/// Decides what becomes of the output of a contract's fuzzer run: a CUDA
/// error stops the analysis or skips the contract, as `abort_on_cuda_error`
/// says; a blank output is skipped; otherwise the log is read, and its
/// samples, if there are any, are what the run gives.
pub fn assess_log(log_content: &str, contract_id: &str, abort_on_cuda_error: bool) -> (outcome:
    RunOutcome)
    ensures
        match outcome {
            RunOutcome::CudaAbort => contains_text(log_content@, cuda_error_marker())
                && abort_on_cuda_error,
            RunOutcome::CudaSkip => contains_text(log_content@, cuda_error_marker())
                && !abort_on_cuda_error,
            RunOutcome::EmptyLog => !contains_text(log_content@, cuda_error_marker()) && is_blank(
                log_content@,
            ),
            RunOutcome::Unreadable(e) => !contains_text(log_content@, cuda_error_marker())
                && !is_blank(log_content@) && log_samples(log_content@) == Err::<
                Seq<StatsEntry>,
                FailureView,
            >(e.failure@) && e.contract_id@ == contract_id@,
            RunOutcome::NoSamples => !contains_text(log_content@, cuda_error_marker())
                && !is_blank(log_content@) && log_samples(log_content@) == Ok::<
                Seq<StatsEntry>,
                FailureView,
            >(Seq::empty()),
            RunOutcome::Samples(entries) => !contains_text(log_content@, cuda_error_marker())
                && !is_blank(log_content@) && (log_samples(log_content@) matches Ok(raw)
                && raw.len() > 0 && is_time_normalization(raw, entries@)),
        },
{
    if str_contains(log_content, "SYSTEM ERROR : [Cuda]") {
        if abort_on_cuda_error {
            return RunOutcome::CudaAbort;
        } else {
            return RunOutcome::CudaSkip;
        }
    }
    if is_blank_str(log_content) {
        return RunOutcome::EmptyLog;
    }
    match parse_log(log_content, contract_id) {
        Err(e) => RunOutcome::Unreadable(e),
        Ok(entries) => {
            let ghost raw = log_samples(log_content@)->Ok_0;
            if entries.len() == 0 {
                proof {
                    if raw.len() > 0 {
                        assert(has_time(entries@, raw[0].spec_time()));
                    }
                    assert(raw =~= Seq::<StatsEntry>::empty());
                }
                RunOutcome::NoSamples
            } else {
                proof {
                    let x = entries@[0];
                    assert(first_occurrence_within(raw, raw.len() as int, x));
                }
                RunOutcome::Samples(entries)
            }
        },
    }
}

} // verus!
