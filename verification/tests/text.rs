use ityfuzz_analyzer::text::{
    is_blank_str, is_decimal_digit_char, is_whitespace_char, parse_u64, split_lines, split_whitespace,
    str_chars, str_contains, u64_to_decimal,
};
use regex::Regex;

#[test]
fn decimal_digit_class_is_regex_digit_class() {
    let re = Regex::new(r"^\d$").unwrap();
    let mut buf = [0u8; 4];
    for c in (0u32..=0x10FFFF).filter_map(char::from_u32) {
        assert_eq!(is_decimal_digit_char(c), re.is_match(c.encode_utf8(&mut buf)), "char {:x}", c as u32);
    }
}

#[test]
fn white_space_is_std_white_space() {
    for c in (0u32..=0x10FFFF).filter_map(char::from_u32) {
        assert_eq!(is_whitespace_char(c), c.is_whitespace(), "char {:x}", c as u32);
    }
}

#[test]
fn lines_are_std_lines() {
    for s in ["", "\n", "a", "a\n", "a\r\n", "a\r", "\r\n\r\n", "a\n\nb", "a\r\rb\r\n", " x \n y"] {
        let got: Vec<String> = split_lines(s).into_iter().map(|l| l.into_iter().collect()).collect();
        let want: Vec<String> = s.lines().map(|l| l.to_string()).collect();
        assert_eq!(got, want, "text {:?}", s);
    }
}

#[test]
fn words_are_std_words() {
    for s in ["", " ", "evm --run-forever", "  a\tb\u{3000}c  ", "x\n\ny", "\u{a0}d"] {
        let want: Vec<String> = s.split_whitespace().map(|w| w.to_string()).collect();
        assert_eq!(split_whitespace(s), want, "text {:?}", s);
    }
}

#[test]
fn blank_is_trim_empty() {
    for s in ["", " ", "\t\r\n", "\u{2028}", " a ", "x"] {
        assert_eq!(is_blank_str(s), s.trim().is_empty());
    }
}

#[test]
fn parse_u64_is_std_parse() {
    for s in ["0", "007", "42", "18446744073709551615", "18446744073709551616", "99999999999999999999", "", "1a", "\u{0661}"] {
        let chars = str_chars(s);
        assert_eq!(parse_u64(&chars, 0, chars.len()), s.parse::<u64>().ok(), "text {:?}", s);
    }
    let chars = str_chars("ab123cd");
    assert_eq!(parse_u64(&chars, 2, 5), Some(123));
}

#[test]
fn decimal_rendering_is_to_string() {
    for n in [0u64, 7, 10, 99, 100, 124, 1749625856722, u64::MAX] {
        assert_eq!(u64_to_decimal(n), n.to_string());
    }
}

#[test]
fn contains_is_std_contains() {
    for (h, n) in [("abc", ""), ("", ""), ("", "a"), ("abc", "bc"), ("abc", "cb"), ("x SYSTEM ERROR : [Cuda] y", "SYSTEM ERROR : [Cuda]"), ("SYSTEM ERROR : [Cud", "SYSTEM ERROR : [Cuda]")] {
        assert_eq!(str_contains(h, n), h.contains(n));
    }
}
