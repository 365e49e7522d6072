//! The log readers against the regular expressions of the analyzers, run
//! through the `regex` crate on many generated logs.

use ityfuzz_analyzer::{ityfuzz, mau};
use regex::Regex;

struct Lcg(u64);

impl Lcg {
    fn next(&mut self) -> u64 {
        self.0 = self.0.wrapping_mul(6364136223846793005).wrapping_add(1442695040888963407);
        self.0 >> 33
    }
    fn below(&mut self, n: u64) -> u64 {
        self.next() % n
    }
}

fn number(rng: &mut Lcg) -> String {
    match rng.below(10) {
        0 => "18446744073709551616".to_string(),
        1 => "\u{0663}".to_string(),
        2 => format!("{}\u{0660}", rng.below(100)),
        3 => "".to_string(),
        _ => format!("{}", rng.below(5000)),
    }
}

fn noise(rng: &mut Lcg) -> String {
    let parts = ["INFO ", "\u{1b}[32m", " ", "x", "\t", "/", "9", "\r", "é"];
    let mut s = String::new();
    for _ in 0..rng.below(4) {
        s.push_str(parts[rng.below(parts.len() as u64) as usize]);
    }
    s
}

fn ityfuzz_line(rng: &mut Lcg) -> String {
    let mut line = noise(rng);
    match rng.below(4) {
        0 => line.push_str(&format!("Ityfuzz start at {}", number(rng))),
        1 | 2 => line.push_str(&format!(
            "Coverage stat: time-millis: {} instructions: {}/{} branches: {}/{}",
            number(rng), number(rng), number(rng), number(rng), number(rng)
        )),
        _ => {}
    }
    line.push_str(&noise(rng));
    line
}

fn mau_line(rng: &mut Lcg) -> String {
    let mut line = noise(rng);
    match rng.below(4) {
        0 => line.push_str(&format!("Began at {}", number(rng))),
        1 | 2 => line.push_str(&format!(
            "Instruction Covered: {}; Branch Covered: {} Timestamp Nanos: {}",
            number(rng), number(rng), number(rng)
        )),
        _ => {}
    }
    line.push_str(&noise(rng));
    line
}

fn log(rng: &mut Lcg, line: fn(&mut Lcg) -> String) -> String {
    let mut text = String::new();
    for _ in 0..rng.below(7) {
        text.push_str(&line(rng));
        text.push_str(if rng.below(3) == 0 { "\r\n" } else { "\n" });
    }
    if rng.below(2) == 0 {
        text.push_str(&line(rng));
    }
    text
}

/// The ityfuzz analyzer's reading of a log, as its regular expressions give it.
fn ityfuzz_reference(text: &str) -> Result<Vec<(u64, u64, u64, u64)>, String> {
    let start_re = Regex::new(r".*Ityfuzz start at (\d+)").unwrap();
    let coverage_re = Regex::new(
        r".*Coverage stat: time-millis: (?P<timestamp>\d+) instructions: (?P<instructions_covered>\d+)/(?P<total_instructions>\d+) branches: (?P<branches_covered>\d+)/\d+",
    )
    .unwrap();
    let mut entries = Vec::new();
    let mut began: Option<u64> = None;
    for line in text.lines() {
        if began.is_none() {
            if let Some(caps) = start_re.captures(line) {
                began = Some(caps[1].parse::<u64>().map_err(|_| format!("start {}", &caps[1]))?);
            }
        }
        if let Some(b) = began {
            if let Some(caps) = coverage_re.captures(line) {
                let ic = caps["instructions_covered"].parse::<u64>().map_err(|_| "ic".to_string())?;
                let bc = caps["branches_covered"].parse::<u64>().map_err(|_| "bc".to_string())?;
                let ts = caps["timestamp"].parse::<u64>().map_err(|_| "ts".to_string())?;
                let ti = caps["total_instructions"].parse::<u64>().map_err(|_| "ti".to_string())?;
                if ts >= b {
                    entries.push((ic, bc, ti, ts - b));
                } else {
                    return Err("before".to_string());
                }
            }
        }
    }
    if began.is_none() && !text.trim().is_empty() {
        return Err("missing".to_string());
    }
    entries.sort_by_key(|e| e.3);
    entries.dedup_by_key(|e| e.3);
    Ok(entries)
}

/// The GPU analyzer's reading of a log, as its regular expressions give it.
fn mau_reference(text: &str) -> Result<Vec<(u64, u64, u64)>, String> {
    let began_re = Regex::new(r"Began at (\d+)").unwrap();
    let stats_re = Regex::new(r"Instruction Covered: (\d+); Branch Covered: (\d+) Timestamp Nanos: (\d+)").unwrap();
    let mut entries = Vec::new();
    let mut began: Option<u64> = None;
    for line in text.lines() {
        if began.is_none() {
            if let Some(caps) = began_re.captures(line) {
                began = Some(caps[1].parse::<u64>().map_err(|_| "began".to_string())?);
            }
        }
        if let Some(b) = began {
            if let Some(caps) = stats_re.captures(line) {
                let ic = caps[1].parse::<u64>().map_err(|_| "ic".to_string())?;
                let bc = caps[2].parse::<u64>().map_err(|_| "bc".to_string())?;
                let ts = caps[3].parse::<u64>().map_err(|_| "ts".to_string())?;
                if ts >= b {
                    entries.push((ic, bc, ts - b));
                }
            }
        }
    }
    if began.is_none() && !text.trim().is_empty() && text.lines().any(|l| stats_re.is_match(l)) {
        return Err("missing".to_string());
    }
    entries.sort_by_key(|e| e.2);
    entries.dedup_by_key(|e| e.2);
    Ok(entries)
}

#[test]
fn ityfuzz_agrees_with_regex_reading() {
    let mut rng = Lcg(7);
    for _ in 0..2500 {
        let text = log(&mut rng, ityfuzz_line);
        let expected = ityfuzz_reference(&text);
        let got = ityfuzz::parse_log(&text, "c").map(|v| {
            v.iter()
                .map(|e| (e.instructions_covered, e.branches_covered, e.total_instructions, e.time_taken_millis))
                .collect::<Vec<_>>()
        });
        assert_eq!(expected.is_ok(), got.is_ok(), "log {:?}", text);
        if let (Ok(a), Ok(b)) = (&expected, &got) {
            assert_eq!(a, b, "log {:?}", text);
        }
    }
}

#[test]
fn mau_agrees_with_regex_reading() {
    let mut rng = Lcg(11);
    for _ in 0..2500 {
        let text = log(&mut rng, mau_line);
        let expected = mau_reference(&text);
        let got = mau::parse_log(&text, "c").map(|v| {
            v.iter().map(|e| (e.instructions_covered, e.branches_covered, e.time_taken_nanos)).collect::<Vec<_>>()
        });
        assert_eq!(expected.is_ok(), got.is_ok(), "log {:?}", text);
        if let (Ok(a), Ok(b)) = (&expected, &got) {
            assert_eq!(a, b, "log {:?}", text);
        }
    }
}
