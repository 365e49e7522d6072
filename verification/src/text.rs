//! Characters, lines, words and decimal numbers in log text.
//!
//! The predicates here follow the Rust standard library and the `regex`
//! crate's character classes, so that the log grammar built on them means
//! what the fuzzer analyzers have always meant by it.

use vstd::prelude::*;

verus! {

broadcast use vstd::string::group_string_axioms;

/// `String::push`: appends one character to a string.
#[verifier::external_body]
pub(crate) fn string_push(s: &mut String, c: char)
    ensures
        final(s)@ == old(s)@.push(c),
{
    s.push(c)
}

/// The characters of a string slice, in order.
pub fn str_chars(s: &str) -> (chars: Vec<char>)
    ensures
        chars@ == s@,
{
    let mut chars: Vec<char> = Vec::new();
    for c in it: s.chars()
        invariant
            chars@ == it.seq().take(it.index() as int),
    {
        chars.push(c);
    }
    chars
}

/// A string holding the characters `chars[start..end]`.
pub fn chars_to_string(chars: &Vec<char>, start: usize, end: usize) -> (s: String)
    requires
        start <= end <= chars.len(),
    ensures
        s@ == chars@.subrange(start as int, end as int),
{
    let mut s = String::new();
    let mut i = start;
    while i < end
        invariant
            start <= i <= end <= chars.len(),
            s@ == chars@.subrange(start as int, i as int),
        decreases end - i,
    {
        string_push(&mut s, chars[i]);
        i = i + 1;
        assert(s@ =~= chars@.subrange(start as int, i as int));
    }
    s
}

/// The Unicode `White_Space` property, which is what `char::is_whitespace`,
/// `str::trim` and `str::split_whitespace` go by.
pub open spec fn is_white_space(c: char) -> bool {
    let v = c as u32;
    ||| (0x9 <= v && v <= 0xD)
    ||| v == 0x20
    ||| v == 0x85
    ||| v == 0xA0
    ||| v == 0x1680
    ||| (0x2000 <= v && v <= 0x200A)
    ||| v == 0x2028
    ||| v == 0x2029
    ||| v == 0x202F
    ||| v == 0x205F
    ||| v == 0x3000
}

/// Whether `c` is white space in the sense of `is_white_space`.
pub fn is_whitespace_char(c: char) -> (r: bool)
    ensures
        r == is_white_space(c),
{
    let v = c as u32;
    (0x9 <= v && v <= 0xD) || v == 0x20 || v == 0x85 || v == 0xA0 || v == 0x1680 || (0x2000
        <= v && v <= 0x200A) || v == 0x2028 || v == 0x2029 || v == 0x202F || v == 0x205F || v
        == 0x3000
}

/// A text that is empty once trimmed: every character is white space.
pub open spec fn is_blank(s: Seq<char>) -> bool {
    forall|i: int| 0 <= i < s.len() ==> is_white_space(#[trigger] s[i])
}

/// Whether the text is empty once trimmed, as `str::trim().is_empty()` says.
pub fn is_blank_str(s: &str) -> (r: bool)
    ensures
        r == is_blank(s@),
{
    let chars = str_chars(s);
    let mut i: usize = 0;
    while i < chars.len()
        invariant
            chars@ == s@,
            i <= chars.len(),
            is_blank(chars@.take(i as int)),
        decreases chars.len() - i,
    {
        if !is_whitespace_char(chars[i]) {
            return false;
        }
        assert(chars@.take(i + 1) =~= chars@.take(i as int).push(chars@[i as int]));
        i = i + 1;
    }
    assert(chars@.take(i as int) =~= chars@);
    true
}

/// A line without the carriage return that ends it, if any.
pub open spec fn strip_cr(line: Seq<char>) -> Seq<char> {
    if line.len() > 0 && line.last() == '\r' {
        line.drop_last()
    } else {
        line
    }
}

/// The lines of `s` that end in a line feed, and the text after the last line
/// feed.
pub open spec fn line_parts(s: Seq<char>) -> (Seq<Seq<char>>, Seq<char>)
    decreases s.len(),
{
    if s.len() == 0 {
        (Seq::empty(), Seq::empty())
    } else {
        let (done, cur) = line_parts(s.drop_last());
        if s.last() == '\n' {
            (done.push(strip_cr(cur)), Seq::empty())
        } else {
            (done, cur.push(s.last()))
        }
    }
}

/// The lines of a text, as `str::lines` gives them: split at each `\n`, a
/// `\r` just before a `\n` dropped, and no empty line after a final `\n`.
pub open spec fn text_lines(s: Seq<char>) -> Seq<Seq<char>> {
    let (done, cur) = line_parts(s);
    if cur.len() == 0 {
        done
    } else {
        done.push(cur)
    }
}

proof fn lemma_line_parts_blank(s: Seq<char>)
    requires
        is_blank(s),
    ensures
        forall|k: int| 0 <= k < line_parts(s).0.len() ==> is_blank(#[trigger] line_parts(s).0[k]),
        is_blank(line_parts(s).1),
    decreases s.len(),
{
    if s.len() > 0 {
        let p = s.drop_last();
        assert forall|i: int| 0 <= i < p.len() implies is_white_space(#[trigger] p[i]) by {
            assert(p[i] == s[i]);
        }
        lemma_line_parts_blank(p);
        let (done, cur) = line_parts(p);
        assert(is_white_space(s[s.len() - 1]));
        if s.last() == '\n' {
            assert(is_blank(strip_cr(cur))) by {
                if cur.len() > 0 && cur.last() == '\r' {
                    assert forall|i: int| 0 <= i < cur.drop_last().len() implies is_white_space(
                        #[trigger] cur.drop_last()[i],
                    ) by {
                        assert(cur.drop_last()[i] == cur[i]);
                    }
                }
            }
            assert forall|k: int| 0 <= k < done.push(strip_cr(cur)).len() implies is_blank(
                #[trigger] done.push(strip_cr(cur))[k],
            ) by {
                if k < done.len() {
                    assert(done.push(strip_cr(cur))[k] == done[k]);
                }
            }
        } else {
            assert forall|i: int| 0 <= i < cur.push(s.last()).len() implies is_white_space(
                #[trigger] cur.push(s.last())[i],
            ) by {
                if i < cur.len() {
                    assert(cur.push(s.last())[i] == cur[i]);
                }
            }
        }
    }
}

/// Every line of a blank text is blank.
pub proof fn lemma_blank_text_lines(s: Seq<char>)
    requires
        is_blank(s),
    ensures
        forall|k: int| 0 <= k < text_lines(s).len() ==> is_blank(#[trigger] text_lines(s)[k]),
{
    lemma_line_parts_blank(s);
    let (done, cur) = line_parts(s);
    assert forall|k: int| 0 <= k < text_lines(s).len() implies is_blank(#[trigger] text_lines(s)[k]) by {
        if k < done.len() {
            assert(text_lines(s)[k] == done[k]);
        }
    }
}

/// The lines of `s`, each as its characters.
pub fn split_lines(s: &str) -> (lines: Vec<Vec<char>>)
    ensures
        lines@.map_values(|l: Vec<char>| l@) == text_lines(s@),
{
    let chars = str_chars(s);
    let mut lines: Vec<Vec<char>> = Vec::new();
    let mut cur: Vec<char> = Vec::new();
    let mut i: usize = 0;
    while i < chars.len()
        invariant
            chars@ == s@,
            i <= chars.len(),
            line_parts(chars@.take(i as int)) == (lines@.map_values(|l: Vec<char>| l@), cur@),
        decreases chars.len() - i,
    {
        let c = chars[i];
        let ghost prefix = chars@.take(i + 1);
        assert(prefix.drop_last() =~= chars@.take(i as int));
        assert(prefix.last() == c);
        if c == '\n' {
            let mut line = cur;
            let n = line.len();
            if n > 0 && line[n - 1] == '\r' {
                line.pop();
                assert(line@ =~= strip_cr(cur@));
            }
            let ghost old_lines = lines@;
            lines.push(line);
            assert(lines@.map_values(|l: Vec<char>| l@) =~= old_lines.map_values(
                |l: Vec<char>| l@,
            ).push(strip_cr(cur@)));
            cur = Vec::new();
            assert(cur@ =~= Seq::<char>::empty());
        } else {
            cur.push(c);
        }
        i = i + 1;
    }
    assert(chars@.take(i as int) =~= s@);
    if cur.len() > 0 {
        let ghost old_lines = lines@;
        let ghost last = cur@;
        lines.push(cur);
        assert(lines@.map_values(|l: Vec<char>| l@) =~= old_lines.map_values(|l: Vec<char>| l@).push(
            last,
        ));
    }
    lines
}

/// The views of a sequence of strings.
pub open spec fn strings_view(v: Seq<String>) -> Seq<Seq<char>> {
    v.map_values(|w: String| w@)
}

/// The words of `s` that end before its last character, and the word that
/// its last characters begin, if any.
pub open spec fn word_parts(s: Seq<char>) -> (Seq<Seq<char>>, Seq<char>)
    decreases s.len(),
{
    if s.len() == 0 {
        (Seq::empty(), Seq::empty())
    } else {
        let (done, cur) = word_parts(s.drop_last());
        if is_white_space(s.last()) {
            if cur.len() > 0 {
                (done.push(cur), Seq::empty())
            } else {
                (done, Seq::empty())
            }
        } else {
            (done, cur.push(s.last()))
        }
    }
}

/// The words of a text, as `str::split_whitespace` gives them: the maximal
/// runs of characters that are not white space, in order.
pub open spec fn whitespace_words(s: Seq<char>) -> Seq<Seq<char>> {
    let (done, cur) = word_parts(s);
    if cur.len() == 0 {
        done
    } else {
        done.push(cur)
    }
}

/// The words of `s`, separated by white space.
pub fn split_whitespace(s: &str) -> (words: Vec<String>)
    ensures
        strings_view(words@) == whitespace_words(s@),
{
    let chars = str_chars(s);
    let mut words: Vec<String> = Vec::new();
    let mut cur = String::new();
    let mut in_word = false;
    let mut i: usize = 0;
    while i < chars.len()
        invariant
            chars@ == s@,
            i <= chars.len(),
            in_word == (cur@.len() > 0),
            word_parts(chars@.take(i as int)) == (strings_view(words@), cur@),
        decreases chars.len() - i,
    {
        let c = chars[i];
        let ghost prefix = chars@.take(i + 1);
        assert(prefix.drop_last() =~= chars@.take(i as int));
        assert(prefix.last() == c);
        if is_whitespace_char(c) {
            if in_word {
                let ghost old_words = words@;
                let ghost word = cur@;
                words.push(cur);
                assert(strings_view(words@) =~= strings_view(old_words).push(word));
            }
            cur = String::new();
            in_word = false;
        } else {
            string_push(&mut cur, c);
            in_word = true;
        }
        i = i + 1;
    }
    assert(chars@.take(i as int) =~= s@);
    if in_word {
        let ghost old_words = words@;
        let ghost word = cur@;
        words.push(cur);
        assert(strings_view(words@) =~= strings_view(old_words).push(word));
    }
    words
}

/// `pat` occurs in `s` starting at `p`.
pub open spec fn occurs_at(s: Seq<char>, pat: Seq<char>, p: int) -> bool {
    0 <= p && p + pat.len() <= s.len() && s.subrange(p, p + pat.len()) == pat
}

/// `pat` occurs somewhere in `s`, as `str::contains` asks.
pub open spec fn contains_text(s: Seq<char>, pat: Seq<char>) -> bool {
    exists|p: int| occurs_at(s, pat, p)
}

/// Whether `pat` occurs in `s`.
pub fn str_contains(s: &str, pat: &str) -> (r: bool)
    ensures
        r == contains_text(s@, pat@),
{
    let hay = str_chars(s);
    let needle = str_chars(pat);
    if needle.len() > hay.len() {
        assert forall|p: int| !occurs_at(s@, pat@, p) by {}
        return false;
    }
    let last = hay.len() - needle.len();
    let mut p: usize = 0;
    loop
        invariant
            hay@ == s@,
            needle@ == pat@,
            last == hay.len() - needle.len(),
            p <= last,
            forall|q: int| 0 <= q < p ==> !occurs_at(s@, pat@, q),
        decreases last - p,
    {
        let mut k: usize = 0;
        let mut same = true;
        while k < needle.len()
            invariant
                hay@ == s@,
                needle@ == pat@,
                p <= last,
                last == hay.len() - needle.len(),
                k <= needle.len(),
                same ==> forall|m: int| 0 <= m < k ==> hay@[p + m] == needle@[m],
                !same ==> !occurs_at(s@, pat@, p as int),
            decreases needle.len() - k,
        {
            if hay[p + k] != needle[k] {
                assert(hay@.subrange(p as int, p + needle@.len())[k as int] == hay@[p + k]);
                same = false;
            }
            k = k + 1;
        }
        if same {
            assert(hay@.subrange(p as int, p + needle@.len()) =~= needle@);
            assert(occurs_at(s@, pat@, p as int));
            return true;
        }
        if p == last {
            assert forall|q: int| !occurs_at(s@, pat@, q) by {
                if 0 <= q && q + pat@.len() <= s@.len() && q != p {
                    assert(q < p);
                }
            }
            return false;
        }
        p = p + 1;
    }
}

/// The Unicode `Decimal_Number` category (Unicode 16.0), which is the class
/// that `\d` denotes in a `regex` pattern.
pub open spec fn is_decimal_digit(c: char) -> bool {
    let v = c as u32;
    (0x30 <= v && v <= 0x39)
    || (0x660 <= v && v <= 0x669)
    || (0x6F0 <= v && v <= 0x6F9)
    || (0x7C0 <= v && v <= 0x7C9)
    || (0x966 <= v && v <= 0x96F)
    || (0x9E6 <= v && v <= 0x9EF)
    || (0xA66 <= v && v <= 0xA6F)
    || (0xAE6 <= v && v <= 0xAEF)
    || (0xB66 <= v && v <= 0xB6F)
    || (0xBE6 <= v && v <= 0xBEF)
    || (0xC66 <= v && v <= 0xC6F)
    || (0xCE6 <= v && v <= 0xCEF)
    || (0xD66 <= v && v <= 0xD6F)
    || (0xDE6 <= v && v <= 0xDEF)
    || (0xE50 <= v && v <= 0xE59)
    || (0xED0 <= v && v <= 0xED9)
    || (0xF20 <= v && v <= 0xF29)
    || (0x1040 <= v && v <= 0x1049)
    || (0x1090 <= v && v <= 0x1099)
    || (0x17E0 <= v && v <= 0x17E9)
    || (0x1810 <= v && v <= 0x1819)
    || (0x1946 <= v && v <= 0x194F)
    || (0x19D0 <= v && v <= 0x19D9)
    || (0x1A80 <= v && v <= 0x1A89)
    || (0x1A90 <= v && v <= 0x1A99)
    || (0x1B50 <= v && v <= 0x1B59)
    || (0x1BB0 <= v && v <= 0x1BB9)
    || (0x1C40 <= v && v <= 0x1C49)
    || (0x1C50 <= v && v <= 0x1C59)
    || (0xA620 <= v && v <= 0xA629)
    || (0xA8D0 <= v && v <= 0xA8D9)
    || (0xA900 <= v && v <= 0xA909)
    || (0xA9D0 <= v && v <= 0xA9D9)
    || (0xA9F0 <= v && v <= 0xA9F9)
    || (0xAA50 <= v && v <= 0xAA59)
    || (0xABF0 <= v && v <= 0xABF9)
    || (0xFF10 <= v && v <= 0xFF19)
    || (0x104A0 <= v && v <= 0x104A9)
    || (0x10D30 <= v && v <= 0x10D39)
    || (0x10D40 <= v && v <= 0x10D49)
    || (0x11066 <= v && v <= 0x1106F)
    || (0x110F0 <= v && v <= 0x110F9)
    || (0x11136 <= v && v <= 0x1113F)
    || (0x111D0 <= v && v <= 0x111D9)
    || (0x112F0 <= v && v <= 0x112F9)
    || (0x11450 <= v && v <= 0x11459)
    || (0x114D0 <= v && v <= 0x114D9)
    || (0x11650 <= v && v <= 0x11659)
    || (0x116C0 <= v && v <= 0x116C9)
    || (0x116D0 <= v && v <= 0x116E3)
    || (0x11730 <= v && v <= 0x11739)
    || (0x118E0 <= v && v <= 0x118E9)
    || (0x11950 <= v && v <= 0x11959)
    || (0x11BF0 <= v && v <= 0x11BF9)
    || (0x11C50 <= v && v <= 0x11C59)
    || (0x11D50 <= v && v <= 0x11D59)
    || (0x11DA0 <= v && v <= 0x11DA9)
    || (0x11F50 <= v && v <= 0x11F59)
    || (0x16130 <= v && v <= 0x16139)
    || (0x16A60 <= v && v <= 0x16A69)
    || (0x16AC0 <= v && v <= 0x16AC9)
    || (0x16B50 <= v && v <= 0x16B59)
    || (0x16D70 <= v && v <= 0x16D79)
    || (0x1CCF0 <= v && v <= 0x1CCF9)
    || (0x1D7CE <= v && v <= 0x1D7FF)
    || (0x1E140 <= v && v <= 0x1E149)
    || (0x1E2F0 <= v && v <= 0x1E2F9)
    || (0x1E4F0 <= v && v <= 0x1E4F9)
    || (0x1E5F1 <= v && v <= 0x1E5FA)
    || (0x1E950 <= v && v <= 0x1E959)
    || (0x1FBF0 <= v && v <= 0x1FBF9)
}

/// Whether `c` belongs to the `\d` class, in the sense of `is_decimal_digit`.
pub fn is_decimal_digit_char(c: char) -> (r: bool)
    ensures
        r == is_decimal_digit(c),
{
    let v = c as u32;
    if v < 0x80 {
        return 0x30 <= v && v <= 0x39;
    }
    (0x30 <= v && v <= 0x39)
    || (0x660 <= v && v <= 0x669)
    || (0x6F0 <= v && v <= 0x6F9)
    || (0x7C0 <= v && v <= 0x7C9)
    || (0x966 <= v && v <= 0x96F)
    || (0x9E6 <= v && v <= 0x9EF)
    || (0xA66 <= v && v <= 0xA6F)
    || (0xAE6 <= v && v <= 0xAEF)
    || (0xB66 <= v && v <= 0xB6F)
    || (0xBE6 <= v && v <= 0xBEF)
    || (0xC66 <= v && v <= 0xC6F)
    || (0xCE6 <= v && v <= 0xCEF)
    || (0xD66 <= v && v <= 0xD6F)
    || (0xDE6 <= v && v <= 0xDEF)
    || (0xE50 <= v && v <= 0xE59)
    || (0xED0 <= v && v <= 0xED9)
    || (0xF20 <= v && v <= 0xF29)
    || (0x1040 <= v && v <= 0x1049)
    || (0x1090 <= v && v <= 0x1099)
    || (0x17E0 <= v && v <= 0x17E9)
    || (0x1810 <= v && v <= 0x1819)
    || (0x1946 <= v && v <= 0x194F)
    || (0x19D0 <= v && v <= 0x19D9)
    || (0x1A80 <= v && v <= 0x1A89)
    || (0x1A90 <= v && v <= 0x1A99)
    || (0x1B50 <= v && v <= 0x1B59)
    || (0x1BB0 <= v && v <= 0x1BB9)
    || (0x1C40 <= v && v <= 0x1C49)
    || (0x1C50 <= v && v <= 0x1C59)
    || (0xA620 <= v && v <= 0xA629)
    || (0xA8D0 <= v && v <= 0xA8D9)
    || (0xA900 <= v && v <= 0xA909)
    || (0xA9D0 <= v && v <= 0xA9D9)
    || (0xA9F0 <= v && v <= 0xA9F9)
    || (0xAA50 <= v && v <= 0xAA59)
    || (0xABF0 <= v && v <= 0xABF9)
    || (0xFF10 <= v && v <= 0xFF19)
    || (0x104A0 <= v && v <= 0x104A9)
    || (0x10D30 <= v && v <= 0x10D39)
    || (0x10D40 <= v && v <= 0x10D49)
    || (0x11066 <= v && v <= 0x1106F)
    || (0x110F0 <= v && v <= 0x110F9)
    || (0x11136 <= v && v <= 0x1113F)
    || (0x111D0 <= v && v <= 0x111D9)
    || (0x112F0 <= v && v <= 0x112F9)
    || (0x11450 <= v && v <= 0x11459)
    || (0x114D0 <= v && v <= 0x114D9)
    || (0x11650 <= v && v <= 0x11659)
    || (0x116C0 <= v && v <= 0x116C9)
    || (0x116D0 <= v && v <= 0x116E3)
    || (0x11730 <= v && v <= 0x11739)
    || (0x118E0 <= v && v <= 0x118E9)
    || (0x11950 <= v && v <= 0x11959)
    || (0x11BF0 <= v && v <= 0x11BF9)
    || (0x11C50 <= v && v <= 0x11C59)
    || (0x11D50 <= v && v <= 0x11D59)
    || (0x11DA0 <= v && v <= 0x11DA9)
    || (0x11F50 <= v && v <= 0x11F59)
    || (0x16130 <= v && v <= 0x16139)
    || (0x16A60 <= v && v <= 0x16A69)
    || (0x16AC0 <= v && v <= 0x16AC9)
    || (0x16B50 <= v && v <= 0x16B59)
    || (0x16D70 <= v && v <= 0x16D79)
    || (0x1CCF0 <= v && v <= 0x1CCF9)
    || (0x1D7CE <= v && v <= 0x1D7FF)
    || (0x1E140 <= v && v <= 0x1E149)
    || (0x1E2F0 <= v && v <= 0x1E2F9)
    || (0x1E4F0 <= v && v <= 0x1E4F9)
    || (0x1E5F1 <= v && v <= 0x1E5FA)
    || (0x1E950 <= v && v <= 0x1E959)
    || (0x1FBF0 <= v && v <= 0x1FBF9)
}

/// An ASCII digit `0`..`9`: the only digits that `u64::from_str` accepts.
pub open spec fn is_ascii_digit(c: char) -> bool {
    '0' <= c && c <= '9'
}

/// The numeric value of an ASCII digit.
pub open spec fn digit_value(c: char) -> nat {
    (c as int - '0' as int) as nat
}

/// The value of a sequence of ASCII digits read in base ten.
pub open spec fn decimal_value(s: Seq<char>) -> nat
    decreases s.len(),
{
    if s.len() == 0 {
        0
    } else {
        decimal_value(s.drop_last()) * 10 + digit_value(s.last())
    }
}

/// What `u64::from_str` gives back for a text with no sign: a non-empty run of
/// ASCII digits whose value fits in 64 bits, or nothing.
pub open spec fn parsed_u64(s: Seq<char>) -> Option<u64> {
    if s.len() > 0 && (forall|i: int| 0 <= i < s.len() ==> is_ascii_digit(#[trigger] s[i]))
        && decimal_value(s) <= u64::MAX {
        Some(decimal_value(s) as u64)
    } else {
        None
    }
}

proof fn lemma_decimal_value_grows(s: Seq<char>, k: int)
    requires
        0 <= k <= s.len(),
        forall|i: int| 0 <= i < s.len() ==> is_ascii_digit(#[trigger] s[i]),
    ensures
        decimal_value(s.take(k)) <= decimal_value(s),
    decreases s.len() - k,
{
    if k < s.len() {
        lemma_decimal_value_grows(s, k + 1);
        assert(s.take(k + 1).drop_last() =~= s.take(k));
    } else {
        assert(s.take(k) =~= s);
    }
}

/// Reads `chars[start..end]` as an unsigned 64-bit decimal number, as
/// `u64::from_str` does for a text without a sign.
pub fn parse_u64(chars: &Vec<char>, start: usize, end: usize) -> (r: Option<u64>)
    requires
        start <= end <= chars.len(),
    ensures
        r == parsed_u64(chars@.subrange(start as int, end as int)),
{
    let ghost s = chars@.subrange(start as int, end as int);
    if start == end {
        return None;
    }
    let mut k = start;
    while k < end
        invariant
            start <= k <= end <= chars.len(),
            s == chars@.subrange(start as int, end as int),
            forall|i: int| start <= i < k ==> is_ascii_digit(#[trigger] chars@[i]),
        decreases end - k,
    {
        let c = chars[k];
        if !('0' <= c && c <= '9') {
            assert(!is_ascii_digit(s[k - start]));
            return None;
        }
        k = k + 1;
    }
    assert(forall|i: int| 0 <= i < s.len() ==> is_ascii_digit(#[trigger] s[i])) by {
        assert forall|i: int| 0 <= i < s.len() implies is_ascii_digit(#[trigger] s[i]) by {
            assert(s[i] == chars@[start + i]);
        }
    }
    let mut value: u64 = 0;
    let mut k = start;
    while k < end
        invariant
            start <= k <= end <= chars.len(),
            s == chars@.subrange(start as int, end as int),
            forall|i: int| 0 <= i < s.len() ==> is_ascii_digit(#[trigger] s[i]),
            value as nat == decimal_value(s.take(k - start)),
        decreases end - k,
    {
        let ghost prefix = s.take(k - start + 1);
        assert(prefix.drop_last() =~= s.take(k - start));
        assert(prefix.last() == chars@[k as int]);
        let c = chars[k];
        let d = (c as u32 - '0' as u32) as u64;
        assert(d as nat == digit_value(c));
        if value > (u64::MAX - d) / 10 {
            proof {
                assert(decimal_value(prefix) > u64::MAX) by (nonlinear_arith)
                    requires
                        value > (u64::MAX - d) / 10,
                        decimal_value(prefix) == value * 10 + d,
                        d <= 9,
                ;
                lemma_decimal_value_grows(s, k - start + 1);
                assert(s.take(s.len() as int) =~= s);
            }
            return None;
        }
        value = value * 10 + d;
        k = k + 1;
    }
    assert(s.take(end - start) =~= s);
    Some(value)
}

/// The base-ten digit character for `d < 10`.
pub open spec fn digit_char(d: nat) -> char {
    (d + '0' as nat) as char
}

/// The base-ten rendering of a natural number, without sign or leading zeros.
pub open spec fn decimal_digits(n: nat) -> Seq<char>
    decreases n,
{
    if n < 10 {
        seq![digit_char(n)]
    } else {
        decimal_digits(n / 10).push(digit_char(n % 10))
    }
}

/// Renders `n` in base ten, as `u64::to_string` does.
pub fn u64_to_decimal(n: u64) -> (s: String)
    ensures
        s@ == decimal_digits(n as nat),
{
    // Collect the digits from the least significant one.
    let mut reversed: Vec<char> = Vec::new();
    let mut m = n;
    let ghost mut done: Seq<char> = Seq::empty();
    loop
        invariant_except_break
            decimal_digits(n as nat) == decimal_digits(m as nat) + done,
        invariant
            reversed@ == done.reverse(),
        ensures
            decimal_digits(n as nat) == done,
        decreases m,
    {
        let d = m % 10;
        let c = ((d as u32) + ('0' as u32)) as u8 as char;
        assert(c == digit_char(d as nat));
        reversed.push(c);
        let ghost before = done;
        proof {
            if m >= 10 {
                assert(decimal_digits(m as nat) == decimal_digits((m / 10) as nat).push(c));
                assert(decimal_digits(m as nat) + done =~= decimal_digits((m / 10) as nat)
                    + seq![c].add(done));
            }
            done = seq![c].add(done);
            assert(reversed@ =~= done.reverse());
        }
        if m < 10 {
            assert(decimal_digits(m as nat) == seq![c]);
            assert(decimal_digits(n as nat) =~= seq![c] + before);
            break;
        }
        m = m / 10;
    }
    let mut s = String::new();
    let mut i = reversed.len();
    while i > 0
        invariant
            i <= reversed.len(),
            reversed@ == done.reverse(),
            s@ == done.take(done.len() - i),
            done.len() == reversed.len(),
        decreases i,
    {
        i = i - 1;
        string_push(&mut s, reversed[i]);
        assert(s@ =~= done.take(done.len() - i));
    }
    assert(done.take(done.len() as int) =~= done);
    s
}

} // verus!
