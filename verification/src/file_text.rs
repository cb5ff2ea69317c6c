//! The whole file of cases: a heading, then the reports, the colour
//! generators and the line cases, each as one long string literal.
use vstd::prelude::*;
use crate::encode::{byte_len, lemma_encode_utf8_concat, long_literal, long_literal_spec, push_char};
use vstd::string::*;

verus! {

/// The width of the lines of the written literals.
pub const WIDTH: usize = 96;

/// `v` in decimal.
pub open spec fn decimal_spec(v: nat) -> Seq<char>
    decreases v,
{
    if v < 10 {
        seq![(48 + v) as char]
    } else {
        decimal_spec(v / 10).push((48 + v % 10) as char)
    }
}

/// Appends `v` in decimal.
fn push_decimal(out: &mut String, v: u64)
    ensures
        final(out)@ == old(out)@ + decimal_spec(v as nat),
    decreases v,
{
    let ghost start = out@;
    if v >= 10 {
        push_decimal(out, v / 10);
    }
    push_char(out, (48u8 + (v % 10) as u8) as char);
    assert(out@ =~= start + decimal_spec(v as nat));
}

/// The heading, up to the number of reports.
pub open spec fn heading_start() -> Seq<char> {
    "-- GENERATED by scripts/generate.sh from ariadne 0.6.0.\n-- Do not edit: run the script again instead.\n--\n-- Inputs, with what the crate makes of them, for `Tests.mw`: "@
}

/// The heading between the number of reports and of colour generators.
pub open spec fn heading_reports() -> Seq<char> {
    " random\n-- reports, "@
}

/// The heading between the number of colour generators and of texts.
pub open spec fn heading_colors() -> Seq<char> {
    " colour generators and "@
}

/// The rest of the heading, and the opening of the reports.
pub open spec fn heading_end() -> Seq<char> {
    " texts split into lines.\n--\n-- Copyright Joshua Barretto and the ariadne contributors, and the authors\n-- of the Meadow package. Licensed under MIT: see LICENSE and COPYRIGHT.\n--\n-- A number is base-64 digits; a string is its length in bytes (3 digits) and\n-- then its bytes.\n\n-- Each report is written as its sources, its kind and span, and the steps\n-- that build it, in the order `Tests.mw` reads and takes them, and then what\n-- the crate draws.\n@cfg(test)\n@pub(pkg) def reports =\n  "@
}

/// Between the reports and the colour generators.
pub open spec fn colors_opening() -> Seq<char> {
    "\n\n-- Each generator is its state and brightness, and the colours it makes.\n@cfg(test)\n@pub(pkg) def colors =\n  "@
}

/// Between the colour generators and the line cases.
pub open spec fn lines_opening() -> Seq<char> {
    "\n\n-- Each text is written with its lines, its length, lines found for offsets,\n-- and the lines a span covers.\n@cfg(test)\n@pub(pkg) def lines =\n  "@
}

/// Whether `text` can be written as a literal without its size overflowing.
pub open spec fn fits_literal(text: Seq<char>) -> bool {
    byte_len(text) + byte_len(text) / (WIDTH as nat) * 4 + 2 <= usize::MAX
}

/// The number of bytes of `text` in UTF-8, where that fits in a `usize`.
fn byte_count(text: &str) -> (r: Option<usize>)
    ensures
        match r {
            Some(n) => n == byte_len(text@),
            None => byte_len(text@) > usize::MAX,
        },
{
    let mut total: usize = 0;
    for c in it: text.chars()
        invariant
            it.seq() == text@,
            total == byte_len(text@.take(it.index() as int)),
    {
        let ghost i = it.index() as int;
        let ghost before = text@.take(i);
        let v: u32 = c as u32;
        let w: usize = if v < 0x80 {
            1
        } else if v < 0x800 {
            2
        } else if v < 0x10000 {
            3
        } else {
            4
        };
        proof {
            assert(c == text@[i]);
            assert(text@.take(i + 1) =~= before + seq![c]);
            lemma_encode_utf8_concat(before, seq![c]);
            assert(seq![c].drop_first() =~= Seq::<char>::empty());
            vstd::utf8::char_is_scalar(c);
            let ghost one = seq![c];
            assert(one[0] == c);
            assert(vstd::utf8::encode_utf8(one.drop_first()) =~= Seq::<u8>::empty());
            assert(vstd::utf8::encode_utf8(one) =~= vstd::utf8::encode_scalar(c as u32));
            assert(byte_len(seq![c]) == w);
            lemma_encode_utf8_concat(text@.take(i + 1), text@.skip(i + 1));
            assert(text@.take(i + 1) + text@.skip(i + 1) =~= text@);
        }
        match total.checked_add(w) {
            Some(t) => {
                total = t;
            },
            None => {
                return None;
            },
        }
    }
    assert(text@.take(text@.len() as int) =~= text@);
    Some(total)
}

/// Whether `text` can be written as a literal, computed.
pub(crate) fn fits(text: &str) -> (r: bool)
    ensures
        r == fits_literal(text@),
{
    match byte_count(text) {
        Some(n) => {
            let lines = n / WIDTH;
            match lines.checked_mul(4) {
                Some(extra) => match n.checked_add(extra) {
                    Some(total) => total.checked_add(2).is_some(),
                    None => false,
                },
                None => false,
            }
        },
        None => false,
    }
}

/// The whole file: the heading with the three counts, then the reports, the
/// colour generators and the line cases as literals, and a final newline.
pub open spec fn file_text_spec(
    reports: Seq<char>,
    colors: Seq<char>,
    lines: Seq<char>,
    made: nat,
    color_count: nat,
    line_count: nat,
) -> Seq<char> {
    heading_start() + decimal_spec(made) + heading_reports() + decimal_spec(color_count)
        + heading_colors() + decimal_spec(line_count) + heading_end() + long_literal_spec(
        reports,
        WIDTH as nat,
    ) + colors_opening() + long_literal_spec(colors, WIDTH as nat) + lines_opening()
        + long_literal_spec(lines, WIDTH as nat) + seq!['\n']
}

/// The whole file of cases, from the three texts and their counts.
pub fn file_text(
    reports: &str,
    colors: &str,
    lines: &str,
    made: u64,
    color_count: u64,
    line_count: u64,
) -> (r: String)
    requires
        fits_literal(reports@),
        fits_literal(colors@),
        fits_literal(lines@),
    ensures
        r@ == file_text_spec(
            reports@,
            colors@,
            lines@,
            made as nat,
            color_count as nat,
            line_count as nat,
        ),
{
    let mut out = String::new();
    out.append("-- GENERATED by scripts/generate.sh from ariadne 0.6.0.\n-- Do not edit: run the script again instead.\n--\n-- Inputs, with what the crate makes of them, for `Tests.mw`: ");
    push_decimal(&mut out, made);
    out.append(" random\n-- reports, ");
    push_decimal(&mut out, color_count);
    out.append(" colour generators and ");
    push_decimal(&mut out, line_count);
    out.append(" texts split into lines.\n--\n-- Copyright Joshua Barretto and the ariadne contributors, and the authors\n-- of the Meadow package. Licensed under MIT: see LICENSE and COPYRIGHT.\n--\n-- A number is base-64 digits; a string is its length in bytes (3 digits) and\n-- then its bytes.\n\n-- Each report is written as its sources, its kind and span, and the steps\n-- that build it, in the order `Tests.mw` reads and takes them, and then what\n-- the crate draws.\n@cfg(test)\n@pub(pkg) def reports =\n  ");
    let r = long_literal(reports, WIDTH);
    out.append(r.as_str());
    out.append("\n\n-- Each generator is its state and brightness, and the colours it makes.\n@cfg(test)\n@pub(pkg) def colors =\n  ");
    let c = long_literal(colors, WIDTH);
    out.append(c.as_str());
    out.append("\n\n-- Each text is written with its lines, its length, lines found for offsets,\n-- and the lines a span covers.\n@cfg(test)\n@pub(pkg) def lines =\n  ");
    let l = long_literal(lines, WIDTH);
    out.append(l.as_str());
    push_char(&mut out, '\n');
    assert(out@ =~= file_text_spec(
        reports@,
        colors@,
        lines@,
        made as nat,
        color_count as nat,
        line_count as nat,
    ));
    out
}

} // verus!
