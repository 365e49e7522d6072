//! The wall clock, as the labels of work directories and log files give it.

use vstd::prelude::*;
use crate::text::is_ascii_digit;

verus! {

/// The format of time labels: `YYYY-mm-dd_HH-MM-SS`.
pub open spec fn is_label_format(format: Seq<char>) -> bool {
    format == "%Y-%m-%d_%H-%M-%S"@
}

/// The characters `s[from..to]` are ASCII digits.
pub open spec fn ascii_digits_between(s: Seq<char>, from: int, to: int) -> bool {
    forall|i: int| from <= i < to ==> is_ascii_digit(#[trigger] s[i])
}

/// A rendering of `%Y`, the year of a time that chrono's `Utc::now` can give
/// (from 1970 on): four digits up to 9999, and beyond that a `+` and the
/// year's five or six digits.
pub open spec fn is_year_text(y: Seq<char>) -> bool {
    ||| y.len() == 4 && ascii_digits_between(y, 0, 4)
    ||| (y.len() == 6 || y.len() == 7) && y[0] == '+' && ascii_digits_between(y, 1, y.len() as int)
}

/// The shape of a time label `<year>-mm-dd_HH-MM-SS`: the year as `%Y`
/// renders it, then five two-digit fields behind the separators `-`, `-`,
/// `_`, `-`, `-`.
pub open spec fn is_time_label(s: Seq<char>) -> bool {
    let y = s.len() - 15;
    &&& s.len() >= 19
    &&& is_year_text(s.subrange(0, y))
    &&& s[y] == '-'
    &&& ascii_digits_between(s, y + 1, y + 3)
    &&& s[y + 3] == '-'
    &&& ascii_digits_between(s, y + 4, y + 6)
    &&& s[y + 6] == '_'
    &&& ascii_digits_between(s, y + 7, y + 9)
    &&& s[y + 9] == '-'
    &&& ascii_digits_between(s, y + 10, y + 12)
    &&& s[y + 12] == '-'
    &&& ascii_digits_between(s, y + 13, y + 15)
}

/// `chrono::Utc::now().format(format).to_string()`: the current UTC time,
/// rendered by chrono's strftime-style formatter. Which time it gives depends
/// on the clock, so the contract states only what every outcome shares, as
/// chrono's formatter (`format_numeric`) writes it for the one format admitted
/// here: `%Y` as four digits for the years 1000 to 9999 and as a sign and at
/// least four digits beyond, `%m`, `%d`, `%H`, `%M`, `%S` as two zero-padded
/// digits each, and the separators as they stand. Rendering panics on a format
/// with an unknown specifier; the admitted format has none. `Utc::now` itself
/// panics when the system clock reads before 1970, a state of the machine that
/// no precondition can exclude.
#[verifier::external_body]
fn utc_now_formatted(format: &str) -> (label: String)
    requires
        is_label_format(format@),
    ensures
        is_time_label(label@),
{
    chrono::Utc::now().format(format).to_string()
}

/// The current UTC time as a label `YYYY-mm-dd_HH-MM-SS`: the shape is
/// stated, the time it shows is the clock's.
pub fn current_time_label() -> (label: String)
    ensures
        is_time_label(label@),
{
    utc_now_formatted("%Y-%m-%d_%H-%M-%S")
}

} // verus!
