//! The random inputs of the cases: sources, colours, configurations and
//! spans, each drawn from the generator and written down as it is drawn.
use vstd::prelude::*;
use crate::encode::{byte_len, digit_char, digits, digits_spec, flag};
use std::ops::Range;
use vstd::utf8::{encode_utf8, is_char_boundary};
use crate::pools::{
    dense_line, dense_line_spec, lemma_pools_short, lemma_separators_short, plain_line, plain_line_spec,
    separator, separator_spec, DENSE_LINES, LINES, SEPARATORS,
};
use crate::rng::{below_value, output, step, Rng};
use vstd::string::*;

verus! {

// --- sources ------------------------------------------------------------------------

/// The pool that lines are drawn from: the short, crowded lines when `dense`.
pub open spec fn pool_entry(dense: bool, k: int) -> Seq<char> {
    if dense {
        dense_line_spec(k)
    } else {
        plain_line_spec(k)
    }
}

/// The size of the pool that lines are drawn from.
pub open spec fn pool_size(dense: bool) -> u64 {
    if dense {
        DENSE_LINES
    } else {
        LINES
    }
}

/// `k` lines drawn from the state `s`, each a pool entry and a terminator:
/// the state after them and their text.
pub open spec fn source_lines(s: u64, dense: bool, k: nat) -> (u64, Seq<char>)
    decreases k,
{
    if k == 0 {
        (s, seq![])
    } else {
        let (s1, body) = source_lines(s, dense, (k - 1) as nat);
        (
            step(step(s1)),
            body + pool_entry(dense, below_value(s1, pool_size(dense)) as int) + separator_spec(
                below_value(step(s1), SEPARATORS) as int,
            ),
        )
    }
}

/// The number of terminated lines of a source drawn from `s`.
pub open spec fn source_line_count(s: u64, dense: bool) -> nat {
    if dense {
        (1 + below_value(s, 4)) as nat
    } else {
        below_value(s, 12) as nat
    }
}

/// Each line of a source ends with a terminator picked from the whole pool:
/// the `k`th line, drawn after the first `k - 1`, keeps them as they were
/// and ends with `separator(d % SEPARATORS)`, where `d` is the number drawn
/// just after its pool line.
pub proof fn lemma_line_ends_with_drawn_terminator(s: u64, dense: bool, k: nat)
    requires
        k >= 1,
    ensures
        ({
            let before = source_lines(s, dense, (k - 1) as nat);
            let lines = source_lines(s, dense, k).1;
            let sep = separator_spec((output(step(before.0)) % SEPARATORS) as int);
            &&& lines.len() >= before.1.len() + sep.len()
            &&& lines.take(before.1.len() as int) == before.1
            &&& lines.skip(lines.len() - sep.len()) == sep
        }),
{
    let before = source_lines(s, dense, (k - 1) as nat);
    let lines = source_lines(s, dense, k).1;
    let sep = separator_spec((output(step(before.0)) % SEPARATORS) as int);
    let entry = pool_entry(dense, below_value(before.0, pool_size(dense)) as int);
    assert(lines == before.1 + entry + sep);
    assert(lines.take(before.1.len() as int) =~= before.1);
    assert(lines.skip(lines.len() - sep.len()) =~= sep);
}

/// A random source drawn from the state `s`: the state after it and its text.
/// Its terminated lines come first; then, two times in five, one line
/// without a terminator.
pub open spec fn source_spec(s: u64, dense: bool) -> (u64, Seq<char>) {
    let (s2, body) = source_lines(step(s), dense, source_line_count(s, dense));
    if below_value(s2, 100) < 40 {
        (step(step(s2)), body + pool_entry(dense, below_value(step(s2), pool_size(dense)) as int))
    } else {
        (step(s2), body)
    }
}

/// `k` lines of a source take at most 42 characters each.
pub proof fn lemma_source_lines_short(s: u64, dense: bool, k: nat)
    ensures
        source_lines(s, dense, k).1.len() <= 42 * k,
    decreases k,
{
    if k > 0 {
        lemma_source_lines_short(s, dense, (k - 1) as nat);
        lemma_pools_short();
        lemma_separators_short();
        let s1 = source_lines(s, dense, (k - 1) as nat).0;
        assert(pool_entry(dense, below_value(s1, pool_size(dense)) as int).len() <= 40);
        assert(separator_spec(below_value(step(s1), SEPARATORS) as int).len() <= 2);
    }
}

/// A random source has at most twelve lines of 42 characters.
pub proof fn lemma_source_short(s: u64, dense: bool)
    ensures
        source_spec(s, dense).1.len() <= 12 * 42,
{
    let k = source_line_count(s, dense);
    lemma_source_lines_short(step(s), dense, k);
    lemma_pools_short();
    let s2 = source_lines(step(s), dense, k).0;
    assert(pool_entry(dense, below_value(step(s2), pool_size(dense)) as int).len() <= 40);
}

/// A line drawn from the pool.
fn pool_line(rng: &mut Rng, dense: bool) -> (r: &'static str)
    ensures
        final(rng).0 == step(old(rng).0),
        r@ == pool_entry(dense, below_value(old(rng).0, pool_size(dense)) as int),
        r@.len() <= 40,
{
    proof {
        lemma_pools_short();
    }
    if dense {
        dense_line(rng.below(DENSE_LINES))
    } else {
        plain_line(rng.below(LINES))
    }
}

/// A random source of up to twelve lines, each from the pool (the dense one
/// when `dense`) and each but maybe the last with a random terminator.
pub fn random_source(rng: &mut Rng, dense: bool) -> (s: String)
    ensures
        (final(rng).0, s@) == source_spec(old(rng).0, dense),
        s@.len() <= 12 * 42,
{
    let lines = if dense {
        1 + rng.below(4)
    } else {
        rng.below(12)
    };
    let ghost s1 = rng.0;
    let mut s = String::new();
    let mut i: u64 = 0;
    while i < lines
        invariant
            i <= lines <= 12,
            (rng.0, s@) == source_lines(s1, dense, i as nat),
            s@.len() <= 42 * i,
        decreases lines - i,
    {
        let l = pool_line(rng, dense);
        s.append(l);
        let sep = separator(rng.below(SEPARATORS));
        proof {
            lemma_separators_short();
        }
        s.append(sep);
        i = i + 1;
    }
    if rng.chance(40) {
        let l = pool_line(rng, dense);
        s.append(l);
    }
    s
}


// --- colours ------------------------------------------------------------------------

/// A colour, as yansi has it: the terminal's own, the eight named colours
/// and their bright variants, one of 256 numbered colours, or red, green and
/// blue.
#[derive(Clone, Copy, Debug, PartialEq, Eq, Structural)]
pub enum Color {
    Primary,
    Fixed(u8),
    Rgb(u8, u8, u8),
    Black,
    Red,
    Green,
    Yellow,
    Blue,
    Magenta,
    Cyan,
    White,
    BrightBlack,
    BrightRed,
    BrightGreen,
    BrightYellow,
    BrightBlue,
    BrightMagenta,
    BrightCyan,
    BrightWhite,
}

/// The named colours, by the digit that stands for them.
pub open spec fn named_spec(k: int) -> Color {
    if k == 1 {
        Color::Black
    } else if k == 2 {
        Color::Red
    } else if k == 3 {
        Color::Green
    } else if k == 4 {
        Color::Yellow
    } else if k == 5 {
        Color::Blue
    } else if k == 6 {
        Color::Magenta
    } else if k == 7 {
        Color::Cyan
    } else if k == 8 {
        Color::White
    } else if k == 9 {
        Color::BrightBlack
    } else if k == 10 {
        Color::BrightRed
    } else if k == 11 {
        Color::BrightGreen
    } else if k == 12 {
        Color::BrightYellow
    } else if k == 13 {
        Color::BrightBlue
    } else if k == 14 {
        Color::BrightMagenta
    } else if k == 15 {
        Color::BrightCyan
    } else if k == 16 {
        Color::BrightWhite
    } else {
        Color::Primary
    }
}

/// The named colour that the digit `k` stands for: `Primary`, then the eight
/// colours, then their bright variants.
pub fn named(k: u64) -> (c: Color)
    ensures
        c == named_spec(k as int),
{
    match k {
        1 => Color::Black,
        2 => Color::Red,
        3 => Color::Green,
        4 => Color::Yellow,
        5 => Color::Blue,
        6 => Color::Magenta,
        7 => Color::Cyan,
        8 => Color::White,
        9 => Color::BrightBlack,
        10 => Color::BrightRed,
        11 => Color::BrightGreen,
        12 => Color::BrightYellow,
        13 => Color::BrightBlue,
        14 => Color::BrightMagenta,
        15 => Color::BrightCyan,
        16 => Color::BrightWhite,
        _ => Color::Primary,
    }
}

/// A random colour drawn from `s`: the state after it, what is written for
/// it, and the colour. Half the time a named colour (its digit); else a
/// numbered one (`17`, then two digits) or red, green and blue (`18`, then
/// two digits each).
pub open spec fn color_spec(s: u64) -> (u64, Seq<char>, Color) {
    let t = below_value(s, 4);
    let s1 = step(s);
    if t <= 1 {
        let k = below_value(s1, 17);
        (step(s1), digits_spec(k as nat, 1), named_spec(k as int))
    } else if t == 2 {
        let n = below_value(s1, 256);
        (step(s1), digits_spec(17, 1) + digits_spec(n as nat, 2), Color::Fixed(n as u8))
    } else {
        let r = below_value(s1, 256);
        let g = below_value(step(s1), 256);
        let b = below_value(step(step(s1)), 256);
        (
            step(step(step(s1))),
            digits_spec(18, 1) + digits_spec(r as nat, 2) + digits_spec(g as nat, 2) + digits_spec(
                b as nat,
                2,
            ),
            Color::Rgb(r as u8, g as u8, b as u8),
        )
    }
}

/// A random colour, written down as it is drawn.
pub fn random_color(rng: &mut Rng, out: &mut String) -> (c: Color)
    ensures
        final(rng).0 == color_spec(old(rng).0).0,
        final(out)@ == old(out)@ + color_spec(old(rng).0).1,
        c == color_spec(old(rng).0).2,
{
    proof {
        vstd::arithmetic::power2::lemma2_to64();
    }
    let ghost start = out@;
    match rng.below(4) {
        0 | 1 => {
            let k = rng.below(17);
            digits(out, k, 1);
            named(k)
        },
        2 => {
            let n = rng.below(256);
            digits(out, 17, 1);
            digits(out, n, 2);
            assert(out@ =~= start + color_spec(old(rng).0).1);
            Color::Fixed(n as u8)
        },
        _ => {
            let r = rng.below(256);
            let g = rng.below(256);
            let b = rng.below(256);
            digits(out, 18, 1);
            digits(out, r, 2);
            digits(out, g, 2);
            digits(out, b, 2);
            assert(out@ =~= start + color_spec(old(rng).0).1);
            Color::Rgb(r as u8, g as u8, b as u8)
        },
    }
}

// --- configurations -----------------------------------------------------------------

/// Where inline label arrows attach to their spans.
#[derive(Clone, Copy, Debug, PartialEq, Eq, Structural)]
pub enum LabelAttach {
    Start,
    Middle,
    End,
}

/// The characters that reports are drawn with.
#[derive(Clone, Copy, Debug, PartialEq, Eq, Structural)]
pub enum CharSet {
    Unicode,
    Ascii,
}

/// Whether spans count bytes or characters.
#[derive(Clone, Copy, Debug, PartialEq, Eq, Structural)]
pub enum IndexType {
    Byte,
    Char,
}

/// A report configuration, every setting given.
#[derive(Clone, Copy, Debug, PartialEq, Eq, Structural)]
pub struct ConfigChoice {
    pub cross_gap: bool,
    pub label_attach: LabelAttach,
    pub compact: bool,
    pub underlines: bool,
    pub multiline_arrows: bool,
    pub color: bool,
    pub tab_width: u64,
    pub char_set: CharSet,
    pub index_type: IndexType,
}

/// The attachment that the digit `k` stands for.
pub open spec fn attach_spec(k: int) -> LabelAttach {
    if k == 0 {
        LabelAttach::Start
    } else if k == 1 {
        LabelAttach::Middle
    } else {
        LabelAttach::End
    }
}

/// A random configuration drawn from `s`: the state after it, what is
/// written for it (seven flags, the attachment and the tab width) and the
/// configuration.
pub open spec fn config_spec(s0: u64) -> (u64, Seq<char>, ConfigChoice) {
    let s1 = step(s0);
    let s2 = step(s1);
    let s3 = step(s2);
    let s4 = step(s3);
    let s5 = step(s4);
    let s6 = step(s5);
    let s7 = step(s6);
    let s8 = step(s7);
    let cross_gap = below_value(s0, 100) < 50;
    let attach = below_value(s1, 3);
    let compact = below_value(s2, 100) < 30;
    let underlines = below_value(s3, 100) < 70;
    let multiline_arrows = below_value(s4, 100) < 70;
    let color = below_value(s5, 100) < 60;
    let tab_width = 1 + below_value(s6, 8);
    let ascii = below_value(s7, 100) < 30;
    let bytes = below_value(s8, 100) < 30;
    (
        step(s8),
        config_text(
            (cross_gap, compact, underlines, multiline_arrows, color, ascii, bytes),
            attach,
            tab_width as u64,
        ),
        ConfigChoice {
            cross_gap,
            label_attach: attach_spec(attach as int),
            compact,
            underlines,
            multiline_arrows,
            color,
            tab_width: tab_width as u64,
            char_set: if ascii {
                CharSet::Ascii
            } else {
                CharSet::Unicode
            },
            index_type: if bytes {
                IndexType::Byte
            } else {
                IndexType::Char
            },
        },
    )
}

/// The digit for a flag.
pub open spec fn flag_char(b: bool) -> char {
    if b {
        '1'
    } else {
        '0'
    }
}

/// What is written for a configuration: seven flags, then the attachment and
/// the tab width as one digit each.
pub open spec fn config_text(
    flags: (bool, bool, bool, bool, bool, bool, bool),
    attach: u64,
    tab_width: u64,
) -> Seq<char> {
    seq![
        flag_char(flags.0),
        flag_char(flags.1),
        flag_char(flags.2),
        flag_char(flags.3),
        flag_char(flags.4),
        flag_char(flags.5),
        flag_char(flags.6),
        digit_char(attach as int),
        digit_char(tab_width as int),
    ]
}

/// Writes a configuration's settings: seven flags, then the attachment and
/// the tab width as one digit each.
fn write_config(
    out: &mut String,
    flags: (bool, bool, bool, bool, bool, bool, bool),
    attach: u64,
    tab_width: u64,
)
    requires
        attach < 64,
        tab_width < 64,
    ensures
        final(out)@ == old(out)@ + config_text(flags, attach, tab_width),
{
    let ghost start = out@;
    proof {
        crate::encode::lemma_one_digit(attach as nat);
        crate::encode::lemma_one_digit(tab_width as nat);
    }
    flag(out, flags.0);
    flag(out, flags.1);
    flag(out, flags.2);
    flag(out, flags.3);
    flag(out, flags.4);
    flag(out, flags.5);
    flag(out, flags.6);
    digits(out, attach, 1);
    digits(out, tab_width, 1);
    assert(out@ =~= start + config_text(flags, attach, tab_width));
}

/// A random configuration, written down as it is drawn.
pub fn random_config(rng: &mut Rng, out: &mut String) -> (c: ConfigChoice)
    ensures
        final(rng).0 == config_spec(old(rng).0).0,
        final(out)@ == old(out)@ + config_spec(old(rng).0).1,
        c == config_spec(old(rng).0).2,
{
    let cross_gap = rng.chance(50);
    let attach = rng.below(3);
    let compact = rng.chance(30);
    let underlines = rng.chance(70);
    let multiline_arrows = rng.chance(70);
    let color = rng.chance(60);
    let tab_width = 1 + rng.below(8);
    let ascii = rng.chance(30);
    let bytes = rng.chance(30);
    write_config(
        out,
        (cross_gap, compact, underlines, multiline_arrows, color, ascii, bytes),
        attach,
        tab_width,
    );
    ConfigChoice {
        cross_gap,
        label_attach: if attach == 0 {
            LabelAttach::Start
        } else if attach == 1 {
            LabelAttach::Middle
        } else {
            LabelAttach::End
        },
        compact,
        underlines,
        multiline_arrows,
        color,
        tab_width,
        char_set: if ascii {
            CharSet::Ascii
        } else {
            CharSet::Unicode
        },
        index_type: if bytes {
            IndexType::Byte
        } else {
            IndexType::Char
        },
    }
}


// --- spans --------------------------------------------------------------------------

/// The first offset from `x` on that is a character boundary of `bytes`, or
/// past its end.
pub open spec fn snap_from(bytes: Seq<u8>, x: nat) -> nat
    decreases bytes.len() + 1 - x,
{
    if x > bytes.len() || is_char_boundary(bytes, x as int) {
        x
    } else {
        snap_from(bytes, x + 1)
    }
}

/// An offset into `bytes` moved onto a character boundary: first kept to at
/// most two past the end, then moved forward to the next boundary.
pub open spec fn snap_spec(bytes: Seq<u8>, x: nat) -> nat {
    snap_from(bytes, if x < bytes.len() + 2 { x } else { (bytes.len() + 2) as nat })
}

/// An offset moved onto a character boundary is one, unless it is past the
/// end of the text; and it is never moved back.
pub proof fn lemma_snap_lands_on_boundary(bytes: Seq<u8>, x: nat)
    ensures
        snap_from(bytes, x) > bytes.len() || is_char_boundary(bytes, snap_from(bytes, x) as int),
        snap_from(bytes, x) >= x,
    decreases bytes.len() + 1 - x,
{
    if !(x > bytes.len() || is_char_boundary(bytes, x as int)) {
        lemma_snap_lands_on_boundary(bytes, x + 1);
    }
}

/// Moving onto a boundary goes at most one past the end.
pub proof fn lemma_snap_bounded(bytes: Seq<u8>, x: nat)
    ensures
        snap_from(bytes, x) <= if x <= bytes.len() + 1 { bytes.len() + 1 } else { x },
    decreases bytes.len() + 1 - x,
{
    if !(x > bytes.len() || is_char_boundary(bytes, x as int)) {
        lemma_snap_bounded(bytes, x + 1);
    }
}

/// A span drawn from `s` is ordered; without anchors it ends at most 41 past
/// the text's bytes; from anchors it starts at one and is at most 14 long.
pub proof fn lemma_range_bounded(s: u64, text: Seq<char>, anchors: Option<Seq<usize>>)
    requires
        anchors matches Some(a) ==> a.len() > 0,
    ensures
        ({
            let (_, start, end) = range_spec(s, text, anchors);
            &&& start <= end
            &&& anchors is None ==> end <= byte_len(text) + 41
            &&& anchors matches Some(a) ==> a.contains(start as usize) && start == a[below_value(step(s), a.len() as u64) as int] && end <= start + 14
        }),
{
    crate::encode::lemma_byte_len_at_least_chars(text);
    let bytes = encode_utf8(text);
    let s1 = step(s);
    match anchors {
        Some(a) => {
            let k = below_value(s1, a.len() as u64) as int;
            assert(0 <= k < a.len());
            assert(a.contains(a[k]));
            let l = below_value(step(s1), 6) as int;
            assert(anchor_length(l) <= 14);
        },
        None => {
            let byte_mode = below_value(s, 100) < 50;
            let len = if byte_mode { bytes.len() } else { text.len() };
            let start = below_value(s1, (len + 3) as u64) as nat;
            let (s3, end) = range_end_spec(step(s1), start, len);
            if byte_mode && below_value(s3, 100) < 90 {
                let cap = |x: nat| if x < bytes.len() + 2 { x } else { (bytes.len() + 2) as nat };
                lemma_snap_bounded(bytes, cap(start));
                lemma_snap_bounded(bytes, cap(end));
            }
        },
    }
}

/// A span counted in bytes and moved onto character boundaries starts and
/// ends on boundaries of the text's UTF-8 bytes, or past its end, and stays
/// ordered.
pub proof fn lemma_snapped_range_on_boundaries(s: u64, text: Seq<char>)
    ensures
        ({
            let bytes = encode_utf8(text);
            let len = bytes.len();
            let (_, a, b) = range_spec(s, text, None);
            let start = below_value(step(s), (len + 3) as u64) as nat;
            let s3 = range_end_spec(step(step(s)), start, len).0;
            let end = range_end_spec(step(step(s)), start, len).1;
            let from_start = if start < len + 2 { start } else { (len + 2) as nat };
            let from_end = if end < len + 2 { end } else { (len + 2) as nat };
            below_value(s, 100) < 50 && below_value(s3, 100) < 90 ==> {
                &&& a > len || is_char_boundary(bytes, a as int)
                &&& b > len || is_char_boundary(bytes, b as int)
                &&& a <= b
                &&& from_start <= a
                &&& forall|x: int| from_start <= x < a ==> #[trigger] inside_a_char(bytes, x)
                &&& b == a || (from_end <= b && forall|x: int|
                    from_end <= x < b ==> #[trigger] inside_a_char(bytes, x))
            }
        }),
{
    let bytes = encode_utf8(text);
    let len = bytes.len();
    let start = below_value(step(s), (len + 3) as u64) as nat;
    let (s3, end) = range_end_spec(step(step(s)), start, len);
    let cap = |x: nat| if x < len + 2 { x } else { (len + 2) as nat };
    lemma_snap_lands_on_boundary(bytes, cap(start));
    lemma_snap_lands_on_boundary(bytes, cap(end));
    lemma_snap_first(bytes, cap(start));
    lemma_snap_first(bytes, cap(end));
}

/// Whether the offset `y` is inside `bytes` and not a character boundary.
pub open spec fn inside_a_char(bytes: Seq<u8>, y: int) -> bool {
    y <= bytes.len() && !is_char_boundary(bytes, y)
}

/// Moving onto a boundary stops at the first one: each offset it passes over
/// is inside a character.
proof fn lemma_snap_first(bytes: Seq<u8>, x: nat)
    ensures
        forall|y: int| x <= y < snap_from(bytes, x) ==> #[trigger] inside_a_char(bytes, y),
    decreases bytes.len() + 1 - x,
{
    if !(x > bytes.len() || is_char_boundary(bytes, x as int)) {
        lemma_snap_first(bytes, x + 1);
        assert(snap_from(bytes, x) == snap_from(bytes, x + 1));
        assert(inside_a_char(bytes, x as int));
    }
}

/// The lengths that spans from anchors take.
pub open spec fn anchor_length(k: int) -> usize {
    seq![0usize, 1, 2, 3, 6, 14][k]
}

/// The end of a span that starts at `start` in something of `len` units,
/// drawn from `s`: the state after it and the end. A quarter of the time the
/// span is empty; else it runs up to 3 or up to 39 further, or to an offset
/// drawn like the start, if that is later.
pub open spec fn range_end_spec(s: u64, start: nat, len: nat) -> (u64, nat) {
    let t = below_value(s, 4);
    let s1 = step(s);
    if t == 0 {
        (s1, start)
    } else if t == 1 {
        (step(s1), start + below_value(s1, 4) as nat)
    } else if t == 2 {
        (step(s1), start + below_value(s1, 40) as nat)
    } else {
        let other = below_value(s1, (len + 3) as u64) as nat;
        (step(s1), if start < other { other } else { start })
    }
}

/// A random span of `text` drawn from `s`: the state after it, its start and
/// its end. Half the time it counts bytes, else characters. From anchors,
/// it starts at one of them and has one of a few lengths. Else it starts at
/// a random offset; nine times in ten, a span that counts bytes is then
/// moved onto character boundaries.
pub open spec fn range_spec(s: u64, text: Seq<char>, anchors: Option<Seq<usize>>) -> (
    u64,
    nat,
    nat,
) {
    let bytes = encode_utf8(text);
    let byte_mode = below_value(s, 100) < 50;
    let s1 = step(s);
    let len = if byte_mode {
        bytes.len()
    } else {
        text.len()
    };
    match anchors {
        Some(a) => {
            let start = a[below_value(s1, a.len() as u64) as int];
            let s2 = step(s1);
            (step(s2), start as nat, (start + anchor_length(below_value(s2, 6) as int)) as nat)
        },
        None => {
            let start = below_value(s1, (len + 3) as u64) as nat;
            let (s3, end) = range_end_spec(step(s1), start, len);
            if byte_mode {
                if below_value(s3, 100) < 90 {
                    let a = snap_spec(bytes, start);
                    let b = snap_spec(bytes, end);
                    (step(s3), a, if a < b { b } else { a })
                } else {
                    (step(s3), start, end)
                }
            } else {
                (s3, start, end)
            }
        },
    }
}

/// With anchors, neither the span drawn nor the draws it takes depend on
/// the text: from one state and one set of anchors, any two texts give the
/// same span and leave the generator in the same state.
pub proof fn lemma_anchored_range_ignores_text(
    s: u64,
    first: Seq<char>,
    second: Seq<char>,
    anchors: Seq<usize>,
)
    ensures
        range_spec(s, first, Some(anchors)) == range_spec(s, second, Some(anchors)),
{
}

/// The anchors as a sequence, where there are any.
pub open spec fn anchors_view(anchors: Option<&[usize]>) -> Option<Seq<usize>> {
    match anchors {
        Some(a) => Some(a@),
        None => None,
    }
}

/// `x` moved onto a character boundary of `text`, as `snap_spec` says.
fn snap(text: &str, bytes: usize, from: usize) -> (r: usize)
    requires
        bytes == byte_len(text@),
        bytes + 3 <= usize::MAX,
    ensures
        r == snap_spec(encode_utf8(text@), from as nat),
        r <= bytes + 2,
{
    let mut x = if from < bytes + 2 {
        from
    } else {
        bytes + 2
    };
    while x <= bytes && !text.is_char_boundary(x)
        invariant
            bytes == byte_len(text@),
            bytes + 3 <= usize::MAX,
            x <= bytes + 2,
            snap_from(encode_utf8(text@), x as nat) == snap_spec(
                encode_utf8(text@),
                from as nat,
            ),
        decreases bytes + 1 - x,
    {
        x = x + 1;
    }
    x
}

/// A span of the source `text`, as characters or (mostly on character
/// boundaries) bytes.
///
/// With `anchors`, the span starts at one of them and has one of a few
/// lengths, so that spans share starts, ends and lengths.
pub fn random_range(rng: &mut Rng, text: &str, anchors: Option<&[usize]>) -> (r: Range<usize>)
    requires
        byte_len(text@) + 64 <= usize::MAX,
        anchors matches Some(a) ==> a@.len() > 0 && forall|i: int|
            0 <= i < a@.len() ==> a@[i] + 14 <= usize::MAX,
    ensures
        (final(rng).0, r.start as nat, r.end as nat) == range_spec(
            old(rng).0,
            text@,
            anchors_view(anchors),
        ),
        r.start <= r.end,
        anchors is None ==> r.end <= byte_len(text@) + 41,
        anchors matches Some(a) ==> a@.contains(r.start) && r.end <= r.start + 14,
{
    proof {
        crate::encode::lemma_byte_len_at_least_chars(text@);
    }
    let chars = text.unicode_len();
    let bytes = text.len();
    let byte_mode = rng.chance(50);
    let len = if byte_mode {
        bytes
    } else {
        chars
    };
    if let Some(anchors) = anchors {
        let start = rng.pick(anchors);
        let lengths: [usize; 6] = [0, 1, 2, 3, 6, 14];
        let extra = rng.pick(&lengths);
        return start..start + extra;
    }
    let start = crate::rng::random_offset(rng, len);
    let ghost s2 = rng.0;
    let end = match rng.below(4) {
        0 => start,
        1 => start + rng.below(4) as usize,
        2 => start + rng.below(40) as usize,
        _ => {
            let other = crate::rng::random_offset(rng, len);
            if start < other {
                other
            } else {
                start
            }
        },
    };
    assert((rng.0, end as nat) == range_end_spec(s2, start as nat, len as nat));
    if byte_mode && rng.chance(90) {
        let a = snap(text, bytes, start);
        let b = snap(text, bytes, end);
        a..if a < b {
            b
        } else {
            a
        }
    } else {
        start..end
    }
}

} // verus!
