//! Line patterns of the form `L0 \d+ L1 \d+ ... \d+ Lk`: literal texts with a
//! run of decimal digits between each two of them, and where each such run is
//! captured.
//!
//! The log lines that the fuzzers print are recognised by such patterns. When
//! every literal that follows a digit run is empty or begins with a character
//! outside `\d`, a digit run can only end where the run of digits in the line
//! ends, so matching at a given position is deterministic: each group takes
//! the whole run of digits it starts on. Searching a line then comes in the
//! two flavours of an unanchored regular expression: the leftmost position at
//! which the pattern matches, or, for a pattern preceded by a greedy `.*`, the
//! rightmost one.

use vstd::prelude::*;
use crate::text::{is_decimal_digit, is_decimal_digit_char};

verus! {

/// A pattern `L0 \d+ L1 ... \d+ Lk`, given by its literals `L0 .. Lk`.
pub struct LinePattern {
    literals: Vec<Vec<char>>,
}

impl View for LinePattern {
    type V = Seq<Seq<char>>;

    closed spec fn view(&self) -> Seq<Seq<char>> {
        self.literals@.map_values(|l: Vec<char>| l@)
    }
}

/// `lit` stands in `line` at position `pos`.
pub open spec fn literal_at(line: Seq<char>, pos: int, lit: Seq<char>) -> bool {
    &&& 0 <= pos
    &&& pos + lit.len() <= line.len()
    &&& line.subrange(pos, pos + lit.len()) == lit
}

/// The length of the run of decimal digits that starts at `pos`.
pub open spec fn digit_run(line: Seq<char>, pos: int) -> nat
    decreases line.len() - pos,
{
    if 0 <= pos < line.len() && is_decimal_digit(line[pos]) {
        1 + digit_run(line, pos + 1)
    } else {
        0
    }
}

/// Adds `front` before the spans of a match, if there is one.
pub open spec fn prepend_spans(front: Seq<(int, int)>, rest: Option<Seq<(int, int)>>) -> Option<
    Seq<(int, int)>,
> {
    match rest {
        Some(r) => Some(front + r),
        None => None,
    }
}

/// Matches the pattern's literals from the `j`-th one on, starting at `pos`:
/// the spans `(start, end)` of the digit runs between them, or `None`.
pub open spec fn match_from(line: Seq<char>, pos: int, lits: Seq<Seq<char>>, j: int) -> Option<
    Seq<(int, int)>,
>
    decreases lits.len() - j,
{
    if j < 0 || j >= lits.len() {
        Some(Seq::empty())
    } else if !literal_at(line, pos, lits[j]) {
        None
    } else if j + 1 == lits.len() {
        Some(Seq::empty())
    } else {
        let q = pos + lits[j].len();
        let r = digit_run(line, q);
        if r == 0 {
            None
        } else {
            prepend_spans(seq![(q, q + r)], match_from(line, q + r, lits, j + 1))
        }
    }
}

/// The pattern matches `line` starting at `pos`.
pub open spec fn matches_at(line: Seq<char>, pos: int, lits: Seq<Seq<char>>) -> bool {
    match_from(line, pos, lits, 0) is Some
}

/// The rightmost position below `k` at which the pattern matches.
pub open spec fn last_match_below(line: Seq<char>, lits: Seq<Seq<char>>, k: int) -> Option<int>
    decreases k,
{
    if k <= 0 {
        None
    } else if matches_at(line, k - 1, lits) {
        Some(k - 1)
    } else {
        last_match_below(line, lits, k - 1)
    }
}

/// The leftmost position from `p` on at which the pattern matches.
pub open spec fn first_match_from(line: Seq<char>, lits: Seq<Seq<char>>, p: int) -> Option<int>
    decreases line.len() + 1 - p,
{
    if p > line.len() || p < 0 {
        None
    } else if matches_at(line, p, lits) {
        Some(p)
    } else {
        first_match_from(line, lits, p + 1)
    }
}

/// The digit spans that `.*L0 \d+ ... Lk` captures in `line`: the match at
/// the rightmost position where the pattern matches.
pub open spec fn greedy_match(line: Seq<char>, lits: Seq<Seq<char>>) -> Option<Seq<(int, int)>> {
    match last_match_below(line, lits, line.len() + 1 as int) {
        Some(p) => match_from(line, p, lits, 0),
        None => None,
    }
}

/// The digit spans that the unanchored `L0 \d+ ... Lk` captures in `line`:
/// the match at the leftmost position where the pattern matches.
pub open spec fn leftmost_match(line: Seq<char>, lits: Seq<Seq<char>>) -> Option<Seq<(int, int)>> {
    match first_match_from(line, lits, 0) {
        Some(p) => match_from(line, p, lits, 0),
        None => None,
    }
}

/// A pattern does not match at any position of a line that does not hold
/// the first character of its first literal.
pub proof fn lemma_no_match_without_lead(line: Seq<char>, lits: Seq<Seq<char>>)
    requires
        lits.len() > 0,
        lits[0].len() > 0,
        forall|i: int| 0 <= i < line.len() ==> #[trigger] line[i] != lits[0][0],
    ensures
        greedy_match(line, lits) is None,
        leftmost_match(line, lits) is None,
{
    assert forall|p: int| !matches_at(line, p, lits) by {
        if literal_at(line, p, lits[0]) {
            assert(line.subrange(p, p + lits[0].len())[0] == line[p]);
        }
    }
    lemma_last_match_none(line, lits, line.len() + 1 as int);
    lemma_first_match_none(line, lits, 0);
}

proof fn lemma_last_match_none(line: Seq<char>, lits: Seq<Seq<char>>, k: int)
    requires
        forall|p: int| !matches_at(line, p, lits),
    ensures
        last_match_below(line, lits, k) is None,
    decreases k,
{
    if k > 0 {
        lemma_last_match_none(line, lits, k - 1);
    }
}

proof fn lemma_first_match_none(line: Seq<char>, lits: Seq<Seq<char>>, p: int)
    requires
        forall|q: int| !matches_at(line, q, lits),
    ensures
        first_match_from(line, lits, p) is None,
    decreases line.len() + 1 - p,
{
    if 0 <= p <= line.len() {
        lemma_first_match_none(line, lits, p + 1);
    }
}

/// Spans with machine positions, read as integers.
pub open spec fn spans_view(spans: Seq<(usize, usize)>) -> Seq<(int, int)> {
    spans.map_values(|s: (usize, usize)| (s.0 as int, s.1 as int))
}

/// Machine spans read as integers, when there are any.
pub open spec fn opt_spans_view(spans: Option<Vec<(usize, usize)>>) -> Option<Seq<(int, int)>> {
    match spans {
        Some(v) => Some(spans_view(v@)),
        None => None,
    }
}

/// One span for each digit group of a pattern with `literal_count`
/// literals, each lying within a line of length `line_len`.
pub open spec fn spans_fit(spans: Seq<(usize, usize)>, line_len: nat, literal_count: nat) -> bool {
    &&& spans.len() + 1 == literal_count
    &&& forall|k: int| 0 <= k < spans.len() ==> spans[k].0 <= (#[trigger] spans[k]).1 <= line_len
}

impl LinePattern {
    /// A pattern from its literals `L0 .. Lk`.
    pub fn new(literals: Vec<Vec<char>>) -> (p: LinePattern)
        requires
            literals.len() > 0,
        ensures
            p@ == literals@.map_values(|l: Vec<char>| l@),
    {
        LinePattern { literals }
    }

    /// Whether the literal `self@[j]` stands in `line` at `pos`.
    fn literal_matches(&self, line: &Vec<char>, pos: usize, j: usize) -> (r: bool)
        requires
            j < self@.len(),
        ensures
            r == literal_at(line@, pos as int, self@[j as int]),
    {
        let lit = &self.literals[j];
        assert(lit@ == self@[j as int]);
        if pos > line.len() || lit.len() > line.len() - pos {
            return false;
        }
        let mut k: usize = 0;
        while k < lit.len()
            invariant
                j < self@.len(),
                lit@ == self@[j as int],
                pos + lit.len() <= line.len(),
                k <= lit.len(),
                forall|i: int| 0 <= i < k ==> line@[pos + i] == lit@[i],
            decreases lit.len() - k,
        {
            if line[pos + k] != lit[k] {
                assert(line@.subrange(pos as int, pos + lit@.len())[k as int] == line@[pos + k]);
                assert(line@.subrange(pos as int, pos + lit@.len()) != lit@);
                return false;
            }
            k = k + 1;
        }
        assert(line@.subrange(pos as int, pos + lit@.len()) =~= lit@);
        true
    }

    /// Matches the whole pattern in `line` at `start`.
    pub fn match_at(&self, line: &Vec<char>, start: usize) -> (r: Option<Vec<(usize, usize)>>)
        requires
            self@.len() > 0,
        ensures
            opt_spans_view(r) == match_from(line@, start as int, self@, 0),
            r matches Some(v) ==> spans_fit(v@, line@.len(), self@.len()),
    {
        let n = self.literals.len();
        let mut spans: Vec<(usize, usize)> = Vec::new();
        let mut pos = start;
        let mut j: usize = 0;
        loop
            invariant
                n == self@.len(),
                0 < n,
                j < n,
                j > 0 ==> pos <= line.len(),
                j == 0 ==> pos == start,
                spans@.len() == j,
                forall|k: int| 0 <= k < j ==> spans@[k].0 <= (#[trigger] spans@[k]).1 <= pos,
                match_from(line@, start as int, self@, 0) == prepend_spans(
                    spans_view(spans@),
                    match_from(line@, pos as int, self@, j as int),
                ),
            decreases n - j,
        {
            let ghost old_spans = spans@;
            if !self.literal_matches(line, pos, j) {
                return None;
            }
            assert(self.literals[j as int]@ == self@[j as int]);
            assert(literal_at(line@, pos as int, self@[j as int]));
            assert(pos + self.literals[j as int]@.len() <= line@.len());
            let lit_len = self.literals[j].len();
            assert(lit_len == self@[j as int].len());
            assert(pos + lit_len <= line.len());
            let q = pos + lit_len;
            if j + 1 == n {
                assert(spans_view(spans@) + Seq::<(int, int)>::empty() =~= spans_view(spans@));
                assert forall|k: int| 0 <= k < spans@.len() implies spans@[k].0 <= (#[trigger] spans@[k]).1 <= line@.len() by {
                    assert(spans@[k].1 <= pos);
                }
                return Some(spans);
            }
            let r = digit_run_len(line, q);
            if r == 0 {
                return None;
            }
            spans.push((q, q + r));
            assert(spans_view(spans@) =~= spans_view(old_spans) + seq![(q as int, (q + r) as int)]);
            proof {
                let tail = match_from(line@, (q + r) as int, self@, j + 1);
                match tail {
                    Some(t) => {
                        assert(spans_view(old_spans) + (seq![(q as int, (q + r) as int)] + t)
                            =~= spans_view(spans@) + t);
                    },
                    None => {},
                }
            }
            pos = q + r;
            j = j + 1;
        }
    }

    /// The match of `.*` followed by the pattern: at the rightmost position
    /// where the pattern matches.
    pub fn greedy_captures(&self, line: &Vec<char>) -> (r: Option<Vec<(usize, usize)>>)
        requires
            self@.len() > 0,
        ensures
            opt_spans_view(r) == greedy_match(line@, self@),
            r matches Some(v) ==> spans_fit(v@, line@.len(), self@.len()),
    {
        let mut p = line.len();
        loop
            invariant
                self@.len() > 0,
                p <= line.len(),
                last_match_below(line@, self@, line@.len() + 1 as int) == last_match_below(
                    line@,
                    self@,
                    p + 1,
                ),
            decreases p,
        {
            let m = self.match_at(line, p);
            if m.is_some() {
                return m;
            }
            if p == 0 {
                assert(last_match_below(line@, self@, 0) == None::<int>);
                return None;
            }
            p = p - 1;
        }
    }

    /// The match of the unanchored pattern: at the leftmost position where
    /// the pattern matches.
    pub fn leftmost_captures(&self, line: &Vec<char>) -> (r: Option<Vec<(usize, usize)>>)
        requires
            self@.len() > 0,
        ensures
            opt_spans_view(r) == leftmost_match(line@, self@),
            r matches Some(v) ==> spans_fit(v@, line@.len(), self@.len()),
    {
        let mut p: usize = 0;
        loop
            invariant
                self@.len() > 0,
                p <= line.len(),
                first_match_from(line@, self@, 0) == first_match_from(line@, self@, p as int),
            decreases line.len() - p,
        {
            let m = self.match_at(line, p);
            if m.is_some() {
                return m;
            }
            if p == line.len() {
                assert(first_match_from(line@, self@, p + 1) == None::<int>);
                return None;
            }
            p = p + 1;
        }
    }
}

/// The length of the run of decimal digits that starts at `pos`.
pub fn digit_run_len(line: &Vec<char>, pos: usize) -> (n: usize)
    requires
        pos <= line.len(),
    ensures
        n == digit_run(line@, pos as int),
        pos + n <= line.len(),
{
    let mut k = pos;
    while k < line.len() && is_decimal_digit_char(line[k])
        invariant
            pos <= k <= line.len(),
            digit_run(line@, pos as int) == (k - pos) + digit_run(line@, k as int),
        decreases line.len() - k,
    {
        k = k + 1;
    }
    k - pos
}

} // verus!
