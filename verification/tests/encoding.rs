use nettle_cases::encode::{digits, flag, long_literal, signed, text};
use nettle_cases::file_text::file_text;
use nettle_cases::fingerprint::fingerprint;

fn decode(s: &str) -> u64 {
    s.chars().fold(0, |acc, c| acc * 64 + (c as u64 - 48))
}

#[test]
fn digits_are_most_significant_first() {
    let mut out = String::new();
    digits(&mut out, 0, 1);
    digits(&mut out, 63, 1);
    digits(&mut out, 64, 2);
    digits(&mut out, 4095, 2);
    assert_eq!(out, "0o10oo");
}

#[test]
fn digits_zero_width_write_nothing() {
    let mut out = String::from("x");
    digits(&mut out, 0, 0);
    assert_eq!(out, "x");
}

#[test]
fn digits_read_back() {
    for (value, n) in [(0u64, 3u32), (262143, 3), (12345, 3), (1 << 59, 10), (77, 2)] {
        let mut out = String::new();
        digits(&mut out, value, n);
        assert_eq!(out.chars().count(), n as usize);
        assert!(out.chars().all(|c| ('0'..='o').contains(&c)));
        assert_eq!(decode(&out), value);
    }
}

#[test]
fn signed_is_offset_by_half() {
    let mut out = String::new();
    signed(&mut out, -150, 2);
    assert_eq!(out, "MZ");
    let mut out = String::new();
    signed(&mut out, 0, 1);
    signed(&mut out, -3, 1);
    signed(&mut out, 3, 1);
    assert_eq!(out, "PMS");
    let mut out = String::new();
    signed(&mut out, -2048, 2);
    signed(&mut out, 2047, 2);
    assert_eq!(out, "00oo");
}

#[test]
fn signed_reads_back() {
    for v in [-150i64, -1, 0, 1, 149] {
        let mut out = String::new();
        signed(&mut out, v, 2);
        assert_eq!(decode(&out) as i64 - 2048, v);
    }
}

#[test]
fn text_is_byte_length_then_text() {
    let mut out = String::new();
    text(&mut out, "日");
    assert_eq!(out, "003日");
    let mut out = String::new();
    text(&mut out, "");
    text(&mut out, "E0308");
    assert_eq!(out, "000005E0308");
}

#[test]
fn text_reads_back() {
    let s = "first line\nsecond line";
    let mut out = String::new();
    text(&mut out, s);
    assert_eq!(decode(&out[..3]) as usize, s.len());
    assert_eq!(&out[3..], s);
}

#[test]
fn flag_is_one_digit() {
    let mut out = String::new();
    flag(&mut out, true);
    flag(&mut out, false);
    assert_eq!(out, "10");
}

#[test]
fn long_literal_escapes() {
    assert_eq!(long_literal("a\"b", 96), "\"a\\\"b\"");
    assert_eq!(long_literal("\\$", 96), "\"\\\\\\$\"");
    assert_eq!(long_literal("\t", 96), "\"\\u{9}\"");
    assert_eq!(long_literal("é", 96), "\"\\u{E9}\"");
    assert_eq!(long_literal("😀", 96), "\"\\u{1F600}\"");
    assert_eq!(long_literal("日│ア", 96), "\"日│ア\"");
    assert_eq!(long_literal("", 96), "\"\"");
}

#[test]
fn long_literal_breaks_lines() {
    assert_eq!(long_literal("abc", 2), "\"ab\\\n    c\"");
    assert_eq!(long_literal("ab c", 2), "\"ab\\\n    \\x20c\"");
    assert_eq!(long_literal("a b", 96), "\"a b\"");
}

/// Reads a literal back the way Meadow does: escapes, and a backslash at the
/// end of a line that drops the next line's leading blanks.
fn read_back(lit: &str) -> String {
    let inner: Vec<char> = lit.chars().collect();
    assert_eq!(inner[0], '"');
    assert_eq!(inner[inner.len() - 1], '"');
    let s = &inner[1..inner.len() - 1];
    let mut out = String::new();
    let mut i = 0;
    while i < s.len() {
        if s[i] != '\\' {
            out.push(s[i]);
            i += 1;
            continue;
        }
        match s[i + 1] {
            '"' | '\\' | '$' => {
                out.push(s[i + 1]);
                i += 2;
            }
            '\n' => {
                i += 2;
                while i < s.len() && s[i] == ' ' {
                    i += 1;
                }
            }
            'x' => {
                let v = u32::from_str_radix(&s[i + 2..i + 4].iter().collect::<String>(), 16).unwrap();
                out.push(char::from_u32(v).unwrap());
                i += 4;
            }
            'u' => {
                let end = i + s[i..].iter().position(|&c| c == '}').unwrap();
                let hex: String = s[i + 3..end].iter().collect();
                out.push(char::from_u32(u32::from_str_radix(&hex, 16).unwrap()).unwrap());
                i = end + 1;
            }
            other => panic!("unknown escape {other:?}"),
        }
    }
    out
}

#[test]
fn long_literal_reads_back() {
    let text = "emoji 😀 and 👨\u{200D}👩 here\r\n  \t$x \"q\" \\ 日本語 e\u{301} │ end ";
    for width in [1, 2, 3, 7, 96] {
        assert_eq!(read_back(&long_literal(text, width)), text);
    }
}

#[test]
fn fingerprint_is_fnv1a() {
    assert_eq!(fingerprint(""), 0xcbf2_9ce4_8422_2325);
    assert_eq!(fingerprint("a"), 0xaf63_dc4c_8601_ec8c);
}

#[test]
fn fingerprint_hashes_bytes() {
    let mut h: u64 = 0xcbf2_9ce4_8422_2325;
    for b in "日本".bytes() {
        h ^= u64::from(b);
        h = h.wrapping_mul(0x0100_0000_01b3);
    }
    assert_eq!(fingerprint("日本"), h);
    assert_ne!(fingerprint("ab"), fingerprint("ba"));
}

#[test]
fn digits_keep_order() {
    let mut prev = String::new();
    digits(&mut prev, 0, 3);
    for v in [1u64, 63, 64, 65, 4095, 4096, 200000, 262143] {
        let mut cur = String::new();
        digits(&mut cur, v, 3);
        assert!(prev < cur, "{prev} < {cur}");
        prev = cur;
    }
}

#[test]
fn file_text_heading_and_literals() {
    let f = file_text("ab", "", "x\"", 1200, 200, 300);
    assert!(f.starts_with("-- GENERATED by scripts/generate.sh from ariadne 0.6.0.\n-- Do not edit: run the script again instead.\n"));
    assert!(f.contains("for `Tests.mw`: 1200 random\n-- reports, 200 colour generators and 300 texts split into lines.\n"));
    assert!(f.contains("@pub(pkg) def reports =\n  \"ab\"\n\n"));
    assert!(f.contains("@pub(pkg) def colors =\n  \"\"\n\n"));
    assert!(f.ends_with("@pub(pkg) def lines =\n  \"x\\\"\"\n"));
    let g = file_text("", "", "", 7, 0, 45);
    assert!(g.contains(": 7 random\n-- reports, 0 colour generators and 45 texts"));
}
