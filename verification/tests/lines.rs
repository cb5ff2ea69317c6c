use nettle_cases::cases::{line_cases, LINE_CASES};
use nettle_cases::lines::line_case;
use nettle_cases::rng::Rng;

/// Reads the encoding of one line case back.
struct Reader<'a> {
    rest: &'a str,
}

impl<'a> Reader<'a> {
    fn number(&mut self, n: usize) -> usize {
        let v = self.rest[..n].chars().fold(0, |a, c| a * 64 + (c as usize - 48));
        self.rest = &self.rest[n..];
        v
    }

    fn text(&mut self) -> &'a str {
        let n = self.number(3);
        let t = &self.rest[..n];
        self.rest = &self.rest[n..];
        t
    }
}

/// Checks one written line case against what ariadne makes of its text.
fn check_case<'a>(r: &mut Reader<'a>) {
    let body = r.text();
    let source = ariadne::Source::from(body);
    let lines: Vec<ariadne::Line> = source.lines().collect();
    assert_eq!(r.number(2), lines.len());
    let mut joined = String::new();
    for line in &lines {
        assert_eq!(r.number(2), line.offset());
        assert_eq!(r.number(2), line.len());
        let t = r.text();
        assert_eq!(t, source.get_line_text(*line).unwrap());
        joined.push_str(t);
    }
    assert_eq!(joined, body);
    assert_eq!(r.number(2), source.len());
    assert_eq!(source.len(), body.chars().count());
    for q in 0..6 {
        let offset = r.number(2);
        let found = if q % 2 == 1 {
            source.get_byte_line(offset)
        } else {
            source.get_offset_line(offset)
        };
        assert_eq!(r.number(1) == 1, found.is_some());
        if let Some((line, idx, col)) = found {
            assert_eq!(r.number(2), line.offset());
            assert_eq!(r.number(2), idx);
            assert_eq!(r.number(2), col);
        }
    }
    let start = r.number(2);
    let end = r.number(2);
    assert!(start <= end);
    let covered = source.get_line_range(&(start..end));
    assert_eq!(r.number(2), covered.start);
    assert_eq!(r.number(2), covered.end);
}

#[test]
fn line_case_records_what_ariadne_finds() {
    for seed in 1..200u64 {
        let mut rng = Rng(seed.wrapping_mul(0x9e37_79b9_7f4a_7c15));
        let mut out = String::new();
        line_case(&mut rng, &mut out);
        let mut r = Reader { rest: &out };
        check_case(&mut r);
        assert!(r.rest.is_empty());
    }
}

#[test]
fn line_cases_are_three_hundred() {
    let mut rng = Rng(0xa21a_d0e5_5eed_0042);
    let mut out = String::new();
    assert_eq!(line_cases(&mut rng, &mut out), LINE_CASES as usize);
    let mut r = Reader { rest: &out };
    for _ in 0..LINE_CASES {
        check_case(&mut r);
    }
    assert!(r.rest.is_empty());
}

#[test]
fn line_case_follows_the_generator() {
    let mut a = Rng(5);
    let mut b = Rng(5);
    let mut out_a = String::new();
    let mut out_b = String::new();
    line_case(&mut a, &mut out_a);
    line_case(&mut b, &mut out_b);
    assert_eq!(out_a, out_b);
    assert_eq!(a.0, b.0);
}
