use nettle_cases::cases::{Cases, COLOR_CASES, LINE_CASES, REPORTS, SEED};
use nettle_cases::encode::{digits, flag, signed, text};
use nettle_cases::pools::{code, kind_name};
use nettle_cases::colors::{random_color_case, write_color_case, ColorCase};
use nettle_cases::inputs::{
    named, random_color, random_config, random_range, random_source, Color, LabelAttach,
};
use nettle_cases::pools::{dense_line, message, plain_line, separator, DENSE_LINES, LINES, SEPARATORS};
use nettle_cases::report::{random_report, KindPlan, StepPlan};
use nettle_cases::rng::{random_offset, Rng};

#[test]
fn rng_is_xorshift_star() {
    let mut rng = Rng(1);
    assert_eq!(rng.next(), 5180492295206395165);
    assert_eq!(rng.0, 0x2000001);
    let mut rng = Rng(SEED);
    assert_eq!(rng.next(), 7494406598343024332);
    assert_eq!(rng.0, 0x32b1_8093_2288_fc3c);
}

#[test]
fn nonzero_state_draws_nonzero() {
    for s in [1u64, 2, 0x8000_0000_0000_0000, u64::MAX, SEED] {
        let mut rng = Rng(s);
        for _ in 0..1000 {
            assert_ne!(rng.next(), 0);
            assert_ne!(rng.0, 0);
        }
    }
    let mut zero = Rng(0);
    assert_eq!(zero.next(), 0);
    assert_eq!(zero.0, 0);
}

#[test]
fn rng_below_chance_pick() {
    let mut a = Rng(SEED);
    let mut b = Rng(SEED);
    let x = a.next();
    assert_eq!(b.below(100), x % 100);
    let mut c = Rng(SEED);
    assert!(c.chance(33));
    let mut d = Rng(SEED);
    assert!(!d.chance(32));
    let mut e = Rng(SEED);
    assert_eq!(e.pick(&[10, 20, 30, 40]), [10, 20, 30, 40][(x % 4) as usize]);
    for _ in 0..1000 {
        assert!(a.below(7) < 7);
    }
}

#[test]
fn random_offset_stays_near() {
    let mut rng = Rng(SEED);
    for len in 0..50 {
        assert!(random_offset(&mut rng, len) <= len + 2);
    }
}

#[test]
fn random_source_is_pool_lines() {
    let mut rng = Rng(SEED);
    let mut again = Rng(SEED);
    for k in 0..200 {
        let dense = k % 3 == 0;
        let s = random_source(&mut rng, dense);
        assert_eq!(s, random_source(&mut again, dense));
        assert!(s.chars().count() <= 12 * 42);
        // Splitting at the terminators leaves only pool lines.
        let mut rest = s.as_str();
        'outer: while !rest.is_empty() {
            let count = if dense { DENSE_LINES } else { LINES };
            for i in 0..count {
                let l = if dense { dense_line(i) } else { plain_line(i) };
                for j in 0..SEPARATORS {
                    let sep = separator(j);
                    let whole = format!("{l}{sep}");
                    if rest.starts_with(&whole) {
                        rest = &rest[whole.len()..];
                        continue 'outer;
                    }
                }
                if rest == l {
                    break 'outer;
                }
            }
            panic!("not made of pool lines: {rest:?}");
        }
    }
}

#[test]
fn named_colors_in_order() {
    assert_eq!(named(0), Color::Primary);
    assert_eq!(named(1), Color::Black);
    assert_eq!(named(9), Color::BrightBlack);
    assert_eq!(named(16), Color::BrightWhite);
}

#[test]
fn random_color_writes_its_choice() {
    let mut rng = Rng(SEED);
    for _ in 0..200 {
        let mut out = String::new();
        let c = random_color(&mut rng, &mut out);
        let ds: Vec<u64> = out.chars().map(|c| c as u64 - 48).collect();
        match c {
            Color::Fixed(n) => assert_eq!(ds, vec![17, n as u64 / 64, n as u64 % 64]),
            Color::Rgb(r, g, b) => {
                assert_eq!(ds.len(), 7);
                assert_eq!(ds[0], 18);
                assert_eq!(ds[1] * 64 + ds[2], r as u64);
                assert_eq!(ds[3] * 64 + ds[4], g as u64);
                assert_eq!(ds[5] * 64 + ds[6], b as u64);
            },
            other => {
                assert_eq!(ds.len(), 1);
                assert_eq!(named(ds[0]), other);
            },
        }
    }
}

#[test]
fn random_config_writes_nine_digits() {
    let mut rng = Rng(SEED);
    for _ in 0..100 {
        let mut out = String::new();
        let c = random_config(&mut rng, &mut out);
        let ds: Vec<char> = out.chars().collect();
        assert_eq!(ds.len(), 9);
        assert_eq!(ds[0] == '1', c.cross_gap);
        assert_eq!(ds[1] == '1', c.compact);
        assert_eq!(ds[4] == '1', c.color);
        let attach = match c.label_attach {
            LabelAttach::Start => '0',
            LabelAttach::Middle => '1',
            LabelAttach::End => '2',
        };
        assert_eq!(ds[7], attach);
        assert!(1 <= c.tab_width && c.tab_width <= 8);
        assert_eq!(ds[8] as u64 - 48, c.tab_width);
    }
}

#[test]
fn random_range_is_ordered() {
    let mut rng = Rng(SEED);
    let text = "let s = \"日本語テキスト\";\nemoji 😀 and 👨\u{200D}👩\u{200D}👧 here";
    for _ in 0..500 {
        let r = random_range(&mut rng, text, None);
        assert!(r.start <= r.end);
        assert!(r.end <= text.len() + 41);
    }
}

#[test]
fn random_range_from_anchors() {
    let mut rng = Rng(SEED);
    let anchors = [3usize, 9, 15];
    for _ in 0..200 {
        let r = random_range(&mut rng, "x", Some(&anchors));
        assert!(anchors.contains(&r.start));
        assert!([0, 1, 2, 3, 6, 14].contains(&(r.end - r.start)));
    }
}

#[test]
fn anchored_range_ignores_text() {
    let anchors = [3usize, 9, 15];
    let mut a = Rng(SEED);
    let mut b = Rng(SEED);
    for _ in 0..200 {
        let ra = random_range(&mut a, "x", Some(&anchors));
        let rb = random_range(&mut b, "a much longer text, with 日本語", Some(&anchors));
        assert_eq!(ra, rb);
        assert_eq!(a.0, b.0);
    }
}

#[test]
fn random_report_plans_match_steps() {
    let mut rng = Rng(SEED);
    let mut again = Rng(SEED);
    for _ in 0..100 {
        let mut out = String::new();
        let plan = random_report(&mut rng, &mut out);
        let mut out2 = String::new();
        let plan2 = random_report(&mut again, &mut out2);
        assert_eq!(out, out2);
        assert_eq!(plan.steps.len(), plan2.steps.len());
        let count = plan.sources.len();
        assert!(1 <= count && count <= 3);
        assert!(plan.with_ids || count == 1);
        assert!(plan.span_source as usize <= count);
        assert!(plan.span.start <= plan.span.end);
        assert_eq!(out.starts_with('1'), plan.with_ids);
        assert_eq!(out.chars().nth(1).unwrap() as usize - 48, count);
        if let KindPlan::Custom(k, _) = plan.kind {
            assert!(k < 4);
        }
        for st in &plan.steps {
            match st {
                StepPlan::Label(l) => assert!(l.start <= l.end && (l.source as usize) <= count),
                StepPlan::Labels(ls) => assert!(ls.len() < 6),
                StepPlan::Notes(ms) | StepPlan::Helps(ms) => assert!(ms.len() < 3),
                StepPlan::NumericCode(n) => assert!(-150 <= *n && *n < 150),
                _ => {},
            }
        }
    }
}

#[test]
fn report_sources_are_written_first() {
    let mut rng = Rng(SEED);
    let mut out = String::new();
    let plan = random_report(&mut rng, &mut out);
    let first = &plan.sources[0];
    let mut expected = String::new();
    text(&mut expected, &first.name);
    text(&mut expected, &first.body);
    assert!(out[2..].starts_with(&expected));
}

#[test]
fn color_case_head_and_colors() {
    let mut rng = Rng(SEED);
    let c: ColorCase = random_color_case(&mut rng);
    assert!(c.kind < 3 && c.m < 80000 && 1 <= c.n && c.n <= 20);
    let colors: Vec<u8> = (0..c.n as u8).collect();
    let mut out = String::new();
    write_color_case(&mut out, &c, &colors);
    assert_eq!(out.chars().count(), 3 * 3 + 1 + 3 + 1 + 2 * c.n as usize);
    let ds: Vec<u64> = out.chars().map(|c| c as u64 - 48).collect();
    assert_eq!(ds[0] * 4096 + ds[1] * 64 + ds[2], c.state.0 as u64);
    assert_eq!(ds[9], c.kind);
    assert_eq!(ds[13], c.n);
    assert_eq!(ds[14] * 64 + ds[15], 0);
}

#[test]
fn dropped_report_leaves_no_trace() {
    let mut cases = Cases::new();
    let _ = cases.next_report();
    cases.record(None);
    assert_eq!(cases.made(), 0);
    assert_eq!(cases.dropped(), 1);
    let _ = cases.next_report();
    cases.record(Some("drawn".to_string()));
    assert_eq!(cases.made(), 1);
    assert!(cases.wants_reports());
    let reports = cases.into_reports();
    assert!(reports.ends_with("005drawn"));
}

#[test]
fn kept_report_is_steps_then_drawing() {
    let mut rng = Rng(SEED);
    let mut steps = String::new();
    let _ = random_report(&mut rng, &mut steps);
    let mut cases = Cases::new();
    let _ = cases.next_report();
    cases.record(Some(String::from("x")));
    assert_eq!(cases.into_reports(), format!("{steps}001x"));
}

/// Keeps `REPORTS` reports, each drawn as "x", or drops every third, and
/// finishes the file with colours that count up.
fn whole_file(drop_some: bool) -> String {
    let mut cases = Cases::new();
    let mut k = 0;
    while cases.wants_reports() {
        let _ = cases.next_report();
        k += 1;
        if drop_some && k % 3 == 0 {
            cases.record(None);
        } else {
            cases.record(Some(String::from("x")));
        }
    }
    assert_eq!(cases.made(), REPORTS);
    let cs = cases.color_cases();
    assert_eq!(cs.len() as u64, COLOR_CASES);
    let colors: Vec<Vec<u8>> = cs.iter().map(|c| (0..c.n as u8).collect()).collect();
    cases.finish(&colors).unwrap()
}

#[test]
fn color_and_line_cases_counts() {
    let file = whole_file(false);
    assert!(file.starts_with("-- GENERATED by scripts/generate.sh from ariadne 0.6.0.\n"));
    assert!(file.contains("`Tests.mw`: 1200 random\n-- reports, 200 colour generators and 300 texts split into lines.\n"));
    assert!(file.contains("@pub(pkg) def reports =\n  \""));
    assert!(file.contains("@pub(pkg) def colors =\n  \""));
    assert!(file.contains("@pub(pkg) def lines =\n  \""));
    assert!(file.ends_with("\"\n"));
    assert_eq!(LINE_CASES, 300);
    assert_eq!(REPORTS, 1200);
}

#[test]
fn color_cases_ignore_drawings() {
    let mut a = Cases::new();
    let mut b = Cases::new();
    while a.wants_reports() {
        let _ = a.next_report();
        a.record(Some(String::from("x")));
        let _ = b.next_report();
        b.record(Some(String::from("a longer drawing")));
    }
    assert!(!b.wants_reports());
    let ca = a.color_cases();
    let cb = b.color_cases();
    assert_eq!(ca.len(), cb.len());
    for (x, y) in ca.iter().zip(&cb) {
        assert_eq!((x.state, x.kind, x.m, x.n), (y.state, y.kind, y.m, y.n));
    }
}

#[test]
fn same_drawings_same_file() {
    let a = whole_file(true);
    let b = whole_file(true);
    assert_eq!(a, b);
    assert_ne!(a, whole_file(false));
}

#[test]
fn messages_pool() {
    assert_eq!(message(0), "expected `i32`");
    assert_eq!(message(11), "x");
}

#[test]
fn missing_source_is_named() {
    let mut rng = Rng(SEED);
    let mut out = String::new();
    let plan = random_report(&mut rng, &mut out);
    let count = plan.sources.len() as u64;
    assert_eq!(plan.source_name(count), "missing.rs");
    assert_eq!(plan.source_name(0), plan.sources[0].name);
    assert!(plan.source_name(0) == "日本/src.rs" || plan.source_name(0) == "file0.rs");
}

fn color_digits(out: &mut String, c: Color) {
    match c {
        Color::Fixed(n) => {
            digits(out, 17, 1);
            digits(out, n as u64, 2);
        },
        Color::Rgb(r, g, b) => {
            digits(out, 18, 1);
            for v in [r, g, b] {
                digits(out, v as u64, 2);
            }
        },
        other => {
            let k = (0..17).find(|&k| named(k) == other).unwrap();
            digits(out, k, 1);
        },
    }
}

fn encode_label(out: &mut String, l: &nettle_cases::report::LabelPlan) {
    digits(out, l.source, 1);
    digits(out, l.start as u64, 2);
    digits(out, l.end as u64, 2);
    flag(out, l.message.is_some());
    if let Some(m) = l.message {
        text(out, message(m));
    }
    flag(out, l.color.is_some());
    if let Some(c) = l.color {
        color_digits(out, c);
    }
    signed(out, l.order, 1);
    signed(out, l.priority, 1);
}

/// Encodes a plan from its values alone.
fn encode_plan(plan: &nettle_cases::report::ReportPlan) -> String {
    let mut out = String::new();
    flag(&mut out, plan.with_ids);
    digits(&mut out, plan.sources.len() as u64, 1);
    for s in &plan.sources {
        text(&mut out, &s.name);
        text(&mut out, &s.body);
        digits(&mut out, s.offset, 2);
    }
    match plan.kind {
        KindPlan::Error => digits(&mut out, 0, 1),
        KindPlan::Warning => digits(&mut out, 1, 1),
        KindPlan::Advice => digits(&mut out, 2, 1),
        KindPlan::Custom(k, c) => {
            digits(&mut out, 3, 1);
            text(&mut out, kind_name(k));
            color_digits(&mut out, c);
        },
    }
    digits(&mut out, plan.span_source, 1);
    digits(&mut out, plan.span.start as u64, 2);
    digits(&mut out, plan.span.end as u64, 2);
    digits(&mut out, plan.steps.len() as u64, 1);
    for st in &plan.steps {
        match st {
            StepPlan::Code(k) => {
                digits(&mut out, 0, 1);
                text(&mut out, code(*k));
            },
            StepPlan::NumericCode(n) => {
                digits(&mut out, 1, 1);
                signed(&mut out, *n, 2);
            },
            StepPlan::Message(k) | StepPlan::Note(k) | StepPlan::Help(k) | StepPlan::SetNote(k)
            | StepPlan::SetHelp(k) => {
                let tag = match st {
                    StepPlan::Message(_) => 2,
                    StepPlan::Note(_) => 3,
                    StepPlan::Help(_) => 4,
                    StepPlan::SetNote(_) => 5,
                    _ => 6,
                };
                digits(&mut out, tag, 1);
                text(&mut out, message(*k));
            },
            StepPlan::Config(c) => {
                digits(&mut out, 7, 1);
                for b in [
                    c.cross_gap,
                    c.compact,
                    c.underlines,
                    c.multiline_arrows,
                    c.color,
                    c.char_set == nettle_cases::inputs::CharSet::Ascii,
                    c.index_type == nettle_cases::inputs::IndexType::Byte,
                ] {
                    flag(&mut out, b);
                }
                let attach = match c.label_attach {
                    LabelAttach::Start => 0,
                    LabelAttach::Middle => 1,
                    LabelAttach::End => 2,
                };
                digits(&mut out, attach, 1);
                digits(&mut out, c.tab_width, 1);
            },
            StepPlan::Notes(ms) | StepPlan::Helps(ms) => {
                let tag = if matches!(st, StepPlan::Notes(_)) { 8 } else { 9 };
                digits(&mut out, tag, 1);
                digits(&mut out, ms.len() as u64, 1);
                for m in ms {
                    text(&mut out, message(*m));
                }
            },
            StepPlan::Label(l) => {
                digits(&mut out, 10, 1);
                encode_label(&mut out, l);
            },
            StepPlan::Labels(ls) => {
                digits(&mut out, 11, 1);
                digits(&mut out, ls.len() as u64, 1);
                for l in ls {
                    encode_label(&mut out, l);
                }
            },
        }
    }
    out
}

#[test]
fn report_text_is_its_plan() {
    let mut rng = Rng(SEED);
    for _ in 0..300 {
        let mut out = String::new();
        let plan = random_report(&mut rng, &mut out);
        assert_eq!(out, encode_plan(&plan));
    }
}

#[test]
fn zero_state_stays_zero() {
    let mut rng = Rng(0);
    for _ in 0..10 {
        assert_eq!(rng.next(), 0);
        assert_eq!(rng.0, 0);
    }
    let mut rng = Rng(0);
    assert_eq!(random_source(&mut rng, true), "日本語\t日本語\n日本語\t日本語");
    assert_eq!(random_source(&mut rng, false), "fn main() {");
    let mut out = String::new();
    assert_eq!(random_color(&mut rng, &mut out), Color::Primary);
    assert_eq!(out, "0");
}

#[test]
fn draws_from_one() {
    let mut rng = Rng(1);
    assert_eq!(rng.below(100), 65);
    let mut rng = Rng(1);
    assert!(!rng.chance(65));
    let mut rng = Rng(1);
    assert!(rng.chance(66));
    let mut rng = Rng(1);
    assert_eq!(rng.pick(&[10, 20, 30, 40]), 20);
    let mut rng = Rng(1);
    assert_eq!(random_offset(&mut rng, 13), 13);
    assert_eq!(rng.0, 0x0200_0001);
}
