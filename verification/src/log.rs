//! What can go wrong when reading a fuzzer's log, and how one number is read
//! out of a matched line.

use vstd::prelude::*;
use crate::text::{chars_to_string, decimal_digits, parse_u64, parsed_u64, u64_to_decimal};
use vstd::string::StringExecFns;

verus! {

broadcast use vstd::string::group_string_axioms;

/// The number that a log line carries in a given place.
#[derive(Clone, Copy, PartialEq, Eq, Structural, Debug)]
pub enum LogField {
    /// The campaign's start time on an `Ityfuzz start at` line.
    StartTimestamp,
    /// The campaign's start time on a `Began at` line.
    BeganAt,
    /// The number of instructions covered so far.
    InstructionsCovered,
    /// The number of branches covered so far.
    BranchesCovered,
    /// The number of instructions in the target.
    TotalInstructions,
    /// The time of a coverage line, in milliseconds.
    TimestampMillis,
    /// The time of a coverage line, in nanoseconds.
    TimestampNanos,
}

/// Why a log could not be read.
#[derive(Clone, Debug)]
pub enum LogFailure {
    /// The digits found for `field` do not make a 64-bit unsigned number.
    Unparsable { field: LogField, text: String },
    /// A coverage line is dated before the campaign started.
    TimestampBeforeStart { timestamp: u64, start: u64 },
    /// The log has coverage output but no start line; `field` names the
    /// start line that was looked for.
    MissingStart { field: LogField },
}

/// `LogFailure` with the offending text as a sequence of characters.
pub enum FailureView {
    Unparsable { field: LogField, text: Seq<char> },
    TimestampBeforeStart { timestamp: u64, start: u64 },
    MissingStart { field: LogField },
}

impl View for LogFailure {
    type V = FailureView;

    open spec fn view(&self) -> FailureView {
        match self {
            LogFailure::Unparsable { field, text } => FailureView::Unparsable {
                field: *field,
                text: text@,
            },
            LogFailure::TimestampBeforeStart { timestamp, start } =>
                FailureView::TimestampBeforeStart { timestamp: *timestamp, start: *start },
            LogFailure::MissingStart { field } => FailureView::MissingStart { field: *field },
        }
    }
}

/// A log that could not be read, with the contract whose run produced it.
#[derive(Clone, Debug)]
pub struct LogError {
    pub contract_id: String,
    pub failure: LogFailure,
}

/// The number in `line[span.0 .. span.1]`, read for `field`.
pub open spec fn field_value(line: Seq<char>, span: (int, int), field: LogField) -> Result<
    u64,
    FailureView,
> {
    let text = line.subrange(span.0, span.1);
    match parsed_u64(text) {
        Some(v) => Ok(v),
        None => Err(FailureView::Unparsable { field, text }),
    }
}

/// Reads the number in `line[span.0 .. span.1]` for `field`.
pub fn read_field(line: &Vec<char>, span: (usize, usize), field: LogField) -> (r: Result<
    u64,
    LogFailure,
>)
    requires
        span.0 <= span.1 <= line.len(),
    ensures
        match r {
            Ok(v) => field_value(line@, (span.0 as int, span.1 as int), field) == Ok::<
                u64,
                FailureView,
            >(v),
            Err(f) => field_value(line@, (span.0 as int, span.1 as int), field) == Err::<
                u64,
                FailureView,
            >(f@),
        },
{
    match parse_u64(line, span.0, span.1) {
        Some(v) => Ok(v),
        None => Err(LogFailure::Unparsable { field, text: chars_to_string(line, span.0, span.1) }),
    }
}

/// How a field is named in messages.
pub open spec fn field_label(field: LogField) -> Seq<char> {
    match field {
        LogField::StartTimestamp => "'start at' timestamp"@,
        LogField::BeganAt => "'Began at' timestamp"@,
        LogField::InstructionsCovered => "instructions_covered"@,
        LogField::BranchesCovered => "branches_covered"@,
        LogField::TotalInstructions => "total_instructions"@,
        LogField::TimestampMillis => "timestamp_millis"@,
        LogField::TimestampNanos => "timestamp_nanos"@,
    }
}

/// How a start line is named in messages.
pub open spec fn start_label(field: LogField) -> Seq<char> {
    if field == LogField::BeganAt {
        "'Began at'"@
    } else {
        "'start at'"@
    }
}

/// The message that reports a failure for a contract.
pub open spec fn failure_message(failure: FailureView, contract_id: Seq<char>) -> Seq<char> {
    match failure {
        FailureView::Unparsable { field, text } => "Failed to parse "@ + field_label(field) + ": "@
            + text,
        FailureView::TimestampBeforeStart { timestamp, start } => "Timestamp "@ + decimal_digits(
            timestamp as nat,
        ) + " is before the 'start at' timestamp "@ + decimal_digits(start as nat)
            + " for contract "@ + contract_id,
        FailureView::MissingStart { field } => "No "@ + start_label(field)
            + " timestamp found in log for "@ + contract_id
            + " despite other stat lines being present."@,
    }
}

fn field_label_str(field: LogField) -> (label: &'static str)
    ensures
        label@ == field_label(field),
{
    match field {
        LogField::StartTimestamp => "'start at' timestamp",
        LogField::BeganAt => "'Began at' timestamp",
        LogField::InstructionsCovered => "instructions_covered",
        LogField::BranchesCovered => "branches_covered",
        LogField::TotalInstructions => "total_instructions",
        LogField::TimestampMillis => "timestamp_millis",
        LogField::TimestampNanos => "timestamp_nanos",
    }
}

impl LogError {
    /// The message that reports this error.
    pub fn message(&self) -> (msg: String)
        ensures
            msg@ == failure_message(self.failure@, self.contract_id@),
    {
        match &self.failure {
            LogFailure::Unparsable { field, text } => "Failed to parse ".to_string().concat(
                field_label_str(*field),
            ).concat(": ").concat(text.as_str()),
            LogFailure::TimestampBeforeStart { timestamp, start } => {
                let ts = u64_to_decimal(*timestamp);
                let st = u64_to_decimal(*start);
                "Timestamp ".to_string().concat(ts.as_str()).concat(
                    " is before the 'start at' timestamp ",
                ).concat(st.as_str()).concat(" for contract ").concat(self.contract_id.as_str())
            },
            LogFailure::MissingStart { field } => {
                let label = if *field == LogField::BeganAt {
                    "'Began at'"
                } else {
                    "'start at'"
                };
                "No ".to_string().concat(label).concat(" timestamp found in log for ").concat(
                    self.contract_id.as_str(),
                ).concat(" despite other stat lines being present.")
            },
        }
    }
}

} // verus!
