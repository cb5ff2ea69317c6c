//! How texts split into lines, as ariadne's `Source` splits them, and the
//! cases that record it: a random text, its lines, its length, the lines
//! found for random offsets, and the lines a random span covers.
use vstd::prelude::*;
use crate::encode::{
    byte_len, digits, digits_spec, flag, flag_spec, lemma_byte_len_at_most_four,
    lemma_encode_utf8_concat, text, text_spec,
};
use crate::inputs::{random_range, random_source, range_spec, source_spec};
use crate::rng::{below_value, random_offset, step, Rng};
use std::ops::Range;
use vstd::arithmetic::power2::{lemma2_to64, pow2};

verus! {

/// A line of a text as values: its offset and length in characters, and
/// its text, terminator included.
pub type LineModel = (nat, nat, Seq<char>);

/// The lines that ariadne's `Source` splits `text` into (at any Unicode line
/// terminator, `\r\n` counting as one).
pub uninterp spec fn lines_of(text: Seq<char>) -> Seq<LineModel>;

/// The lines cover the text, in order and without gaps: each is the part of
/// the text at its offset and of its length; the first starts at 0, each
/// next one where the one before ends, and the last ends at the end. Each
/// line holds at least one character, unless the text is empty, which is
/// then one empty line.
pub open spec fn lines_cover(text: Seq<char>, lines: Seq<LineModel>) -> bool {
    &&& lines.len() >= 1
    &&& lines[0].0 == 0
    &&& forall|i: int|
        0 <= i < lines.len() - 1 ==> #[trigger] lines[i + 1].0 == lines[i].0 + lines[i].1
    &&& lines.last().0 + lines.last().1 == text.len()
    &&& forall|i: int|
        0 <= i < lines.len() ==> #[trigger] lines[i].2 == text.subrange(
            lines[i].0 as int,
            (lines[i].0 + lines[i].1) as int,
        )
    &&& text.len() > 0 ==> forall|i: int| 0 <= i < lines.len() ==> #[trigger] lines[i].1 >= 1
    &&& text.len() == 0 ==> lines.len() == 1
}

/// Whether `c` ends a line: carriage return, line feed, vertical tab, form
/// feed, next line, line separator or paragraph separator.
pub open spec fn is_terminator(c: char) -> bool {
    c == '\r' || c == '\n' || c == '\u{B}' || c == '\u{C}' || c == '\u{85}' || c == '\u{2028}'
        || c == '\u{2029}'
}

/// The lines end where the terminators are: each but the last ends with a
/// terminator; none holds a terminator before its end, but for `\r` just
/// before a final `\n`; and a line that ends with `\r` alone is not
/// followed by one that starts with `\n`.
pub open spec fn lines_split_at_terminators(lines: Seq<LineModel>) -> bool {
    &&& forall|i: int|
        0 <= i < lines.len() - 1 ==> (#[trigger] lines[i]).2.len() > 0 && is_terminator(
            lines[i].2.last(),
        )
    &&& forall|i: int, j: int|
        #![trigger lines[i].2[j]]
        0 <= i < lines.len() && 0 <= j < lines[i].2.len() - 1 && is_terminator(lines[i].2[j])
            ==> lines[i].2[j] == '\r' && j == lines[i].2.len() - 2 && lines[i].2.last() == '\n'
    &&& forall|i: int|
        0 <= i < lines.len() - 1 && (#[trigger] lines[i]).2.last() == '\r' ==> lines[i + 1].2[0]
            != '\n'
}

/// The character offsets at which the lines start.
pub open spec fn char_starts(lines: Seq<LineModel>) -> Seq<nat> {
    lines.map_values(|l: LineModel| l.0)
}

/// The byte offsets at which the lines of `text` start.
pub open spec fn byte_starts(text: Seq<char>, lines: Seq<LineModel>) -> Seq<nat> {
    lines.map_values(|l: LineModel| byte_len(text.take(l.0 as int)))
}

/// The index of the line that `offset` falls on, given where the lines
/// start: the last line that starts at or before it.
pub open spec fn line_index(starts: Seq<nat>, offset: nat) -> nat
    decreases starts.len(),
{
    if starts.len() <= 1 {
        0
    } else if starts.last() <= offset {
        (starts.len() - 1) as nat
    } else {
        line_index(starts.drop_last(), offset)
    }
}

/// The line that a character offset falls on, if it is at most the text's
/// length: its offset, its index, and the offset's column in it.
pub open spec fn offset_line_spec(text: Seq<char>, offset: nat) -> Option<(nat, nat, nat)> {
    if offset <= text.len() {
        let idx = line_index(char_starts(lines_of(text)), offset);
        let lo = lines_of(text)[idx as int].0;
        Some((lo, idx, (offset - lo) as nat))
    } else {
        None
    }
}

/// The line that a byte offset falls on, if it is at most the text's byte
/// length: its (character) offset, its index, and the byte column in it.
pub open spec fn byte_line_spec(text: Seq<char>, offset: nat) -> Option<(nat, nat, nat)> {
    if offset <= byte_len(text) {
        let idx = line_index(byte_starts(text, lines_of(text)), offset);
        let lo = lines_of(text)[idx as int].0;
        Some((lo, idx, (offset - byte_len(text.take(lo as int))) as nat))
    } else {
        None
    }
}

/// The lines that a span from `start` to `end` runs across: from the line
/// of its start (or the first) to one past the line of its last character
/// (or past the last line).
pub open spec fn line_range_spec(text: Seq<char>, start: nat, end: nat) -> (nat, nat) {
    let last = if end >= 1 && end - 1 > start {
        (end - 1) as nat
    } else {
        start
    };
    (
        match offset_line_spec(text, start) {
            Some(l) => l.1,
            None => 0,
        },
        match offset_line_spec(text, last) {
            Some(l) => l.1 + 1,
            None => lines_of(text).len(),
        },
    )
}

/// The lines of a vector, as values.
pub open spec fn lines_view(v: Seq<(usize, usize, String)>) -> Seq<LineModel> {
    v.map_values(|t: (usize, usize, String)| (t.0 as nat, t.1 as nat, t.2@))
}

/// The lines of `text`: `Source::from`, then `Source::lines` and, for each
/// line, `Line::offset`, `Line::len` and `Source::get_line_text`.
///
/// Claims what the crate's source shows: the lines that `Source::from`
/// split off cover the text one after another (`lines_cover`), each with its
/// character offset and length, and `get_line_text` gives each line's part
/// of the text; the text is split after each line terminator, `\r\n`
/// counting as one (`lines_split_at_terminators`). The lines are named
/// `lines_of`, so that other calls on the same text can speak of them.
#[verifier::external_body]
pub(crate) fn source_lines(text: &str) -> (r: Vec<(usize, usize, String)>)
    ensures
        lines_view(r@) == lines_of(text@),
        lines_cover(text@, lines_view(r@)),
        lines_split_at_terminators(lines_view(r@)),
{
    let source = ariadne::Source::from(text);
    source.lines().map(|l| (l.offset(), l.len(), source.get_line_text(l).unwrap().to_string())).collect()
}

/// `Source::len` of a source made from `text`: its length in characters.
#[verifier::external_body]
pub(crate) fn source_len(text: &str) -> (r: usize)
    ensures
        r == text@.len(),
{
    ariadne::Source::from(text).len()
}

/// `Source::get_offset_line` of a source made from `text`: the line that a
/// character offset falls on, as `offset_line_spec` says, with the line
/// given by its offset.
#[verifier::external_body]
pub(crate) fn offset_line(text: &str, offset: usize) -> (r: Option<(usize, usize, usize)>)
    ensures
        match r {
            Some(t) => offset_line_spec(text@, offset as nat) == Some(
                (t.0 as nat, t.1 as nat, t.2 as nat),
            ),
            None => offset_line_spec(text@, offset as nat) is None,
        },
{
    ariadne::Source::from(text).get_offset_line(offset).map(|(l, i, c)| (l.offset(), i, c))
}

/// `Source::get_byte_line` of a source made from `text`: the line that a
/// byte offset falls on, as `byte_line_spec` says, with the line given by
/// its offset.
#[verifier::external_body]
pub(crate) fn byte_line(text: &str, offset: usize) -> (r: Option<(usize, usize, usize)>)
    ensures
        match r {
            Some(t) => byte_line_spec(text@, offset as nat) == Some(
                (t.0 as nat, t.1 as nat, t.2 as nat),
            ),
            None => byte_line_spec(text@, offset as nat) is None,
        },
{
    ariadne::Source::from(text).get_byte_line(offset).map(|(l, i, c)| (l.offset(), i, c))
}

/// `Source::get_line_range` of a source made from `text`: the lines that a
/// span runs across, as `line_range_spec` says.
#[verifier::external_body]
pub(crate) fn line_range(text: &str, span: &Range<usize>) -> (r: Range<usize>)
    ensures
        (r.start as nat, r.end as nat) == line_range_spec(
            text@,
            span.start as nat,
            span.end as nat,
        ),
{
    ariadne::Source::from(text).get_line_range(span)
}


// --- facts about the lines ----------------------------------------------------------

/// Lines that cover a text start and end inside it, and there are no more of
/// them than the text has characters, or one for the empty text.
pub proof fn lemma_lines_inside(text: Seq<char>, lines: Seq<LineModel>)
    requires
        lines_cover(text, lines),
    ensures
        forall|i: int| 0 <= i < lines.len() ==> #[trigger] lines[i].0 + lines[i].1 <= text.len(),
        lines.len() <= text.len() + 1,
{
    let n = lines.len() as int;
    assert forall|i: int| 0 <= i < n implies #[trigger] lines[i].0 + lines[i].1 <= text.len() by {
        lemma_line_end_before_last(text, lines, i);
    }
    if text.len() > 0 {
        lemma_line_starts_after_index(text, lines, n - 1);
        assert(lines.last() == lines[n - 1]);
        assert(lines[n - 1].1 >= 1);
    }
}

/// Line `i` ends at or before the end of the last line.
proof fn lemma_line_end_before_last(text: Seq<char>, lines: Seq<LineModel>, i: int)
    requires
        lines_cover(text, lines),
        0 <= i < lines.len(),
    ensures
        lines[i].0 + lines[i].1 <= text.len(),
    decreases lines.len() - i,
{
    if i < lines.len() - 1 {
        lemma_line_end_before_last(text, lines, i + 1);
        assert(lines[i + 1].0 == lines[i].0 + lines[i].1);
        assert(lines[i + 1].1 >= 0);
    }
}

/// In a text that is not empty, line `i` starts at offset `i` or later.
proof fn lemma_line_starts_after_index(text: Seq<char>, lines: Seq<LineModel>, i: int)
    requires
        lines_cover(text, lines),
        text.len() > 0,
        0 <= i < lines.len(),
    ensures
        lines[i].0 >= i,
    decreases i,
{
    if i > 0 {
        lemma_line_starts_after_index(text, lines, i - 1);
        let j = i - 1;
        assert(lines[j + 1].0 == lines[j].0 + lines[j].1);
    }
}

/// The index of the line an offset falls on is that of one of the lines.
pub proof fn lemma_line_index_inside(starts: Seq<nat>, offset: nat)
    requires
        starts.len() >= 1,
    ensures
        line_index(starts, offset) < starts.len(),
        starts[0] <= offset ==> starts[line_index(starts, offset) as int] <= offset,
    decreases starts.len(),
{
    if starts.len() > 1 && !(starts.last() <= offset) {
        lemma_line_index_inside(starts.drop_last(), offset);
    }
}

/// A part of a text has no more bytes than the text.
pub proof fn lemma_part_bytes(text: Seq<char>, a: int, b: int)
    requires
        0 <= a <= b <= text.len(),
    ensures
        byte_len(text.subrange(a, b)) <= byte_len(text),
        byte_len(text.take(a)) <= byte_len(text),
{
    let p = text.take(a);
    let m = text.subrange(a, b);
    let q = text.skip(b);
    assert(text =~= p + m + q);
    lemma_encode_utf8_concat(p, m);
    lemma_encode_utf8_concat(p + m, q);
}

// --- the cases ----------------------------------------------------------------------

/// What is written for the lines of a text: for each, its offset and length
/// (two digits each) and its text.
pub open spec fn lines_text(lines: Seq<LineModel>) -> Seq<char>
    decreases lines.len(),
{
    if lines.len() == 0 {
        seq![]
    } else {
        lines_text(lines.drop_last()) + digits_spec(lines.last().0, 2) + digits_spec(
            lines.last().1,
            2,
        ) + text_spec(lines.last().2)
    }
}

/// What is written for a line found for an offset: a flag, then its offset,
/// index and column (two digits each).
pub open spec fn found_text(found: Option<(nat, nat, nat)>) -> Seq<char> {
    match found {
        Some(t) => flag_spec(true) + digits_spec(t.0, 2) + digits_spec(t.1, 2) + digits_spec(
            t.2,
            2,
        ),
        None => flag_spec(false),
    }
}

/// Query `q` of the text `body` drawn from `s`: the state after it and what
/// is written for it. Odd queries count bytes, even ones characters; the
/// offset is drawn like any other.
pub open spec fn query_spec(s: u64, body: Seq<char>, q: nat) -> (u64, Seq<char>) {
    let bytes = q % 2 == 1;
    let len = if bytes {
        byte_len(body)
    } else {
        body.len()
    };
    let offset = below_value(s, (len + 3) as u64) as nat;
    let found = if bytes {
        byte_line_spec(body, offset)
    } else {
        offset_line_spec(body, offset)
    };
    (step(s), digits_spec(offset, 2) + found_text(found))
}

/// The first `k` queries of the text `body` drawn from `s`.
pub open spec fn queries_spec(s: u64, body: Seq<char>, k: nat) -> (u64, Seq<char>)
    decreases k,
{
    if k == 0 {
        (s, seq![])
    } else {
        let (s1, o1) = queries_spec(s, body, (k - 1) as nat);
        let (s2, o2) = query_spec(s1, body, (k - 1) as nat);
        (s2, o1 + o2)
    }
}

/// The number of queries in each case.
pub const QUERIES: u64 = 6;

/// One line case drawn from `s`: the state after it and what is written for
/// it. A random text; its lines; its length; six offsets with the lines
/// they fall on; a random span with the lines it runs across.
pub open spec fn line_case_spec(s: u64) -> (u64, Seq<char>) {
    let (s1, body) = source_spec(s, false);
    let lines = lines_of(body);
    let (s2, queries) = queries_spec(s1, body, QUERIES as nat);
    let (s3, start, end) = range_spec(s2, body, None);
    let covered = line_range_spec(body, start, end);
    (
        s3,
        text_spec(body) + digits_spec(lines.len(), 2) + lines_text(lines) + digits_spec(
            body.len(),
            2,
        ) + queries + digits_spec(start, 2) + digits_spec(end, 2) + digits_spec(covered.0, 2)
            + digits_spec(covered.1, 2),
    )
}

/// The texts of line cases are short.
proof fn lemma_case_text_short(body: Seq<char>)
    requires
        body.len() <= 12 * 42,
    ensures
        byte_len(body) <= 2016,
        pow2(12) == 4096,
        pow2(18) == 262144,
{
    lemma_byte_len_at_most_four(body);
    lemma2_to64();
}

/// Writes the lines of `body`.
fn write_lines(out: &mut String, body: &String, lines: &Vec<(usize, usize, String)>)
    requires
        body@.len() <= 12 * 42,
        lines_cover(body@, lines_view(lines@)),
    ensures
        final(out)@ == old(out)@ + lines_text(lines_view(lines@)),
{
    let ghost start_out = out@;
    let ghost view = lines_view(lines@);
    proof {
        lemma_lines_inside(body@, view);
        lemma_case_text_short(body@);
    }
    let mut i: usize = 0;
    while i < lines.len()
        invariant
            i <= lines@.len(),
            view == lines_view(lines@),
            body@.len() <= 12 * 42,
            byte_len(body@) <= 2016,
            pow2(12) == 4096,
            pow2(18) == 262144,
            lines_cover(body@, view),
            forall|j: int| 0 <= j < view.len() ==> #[trigger] view[j].0 + view[j].1 <= body@.len(),
            out@ == start_out + lines_text(view.take(i as int)),
        decreases lines@.len() - i,
    {
        let line = &lines[i];
        assert(view[i as int] == (line.0 as nat, line.1 as nat, line.2@));
        assert(view[i as int].0 + view[i as int].1 <= body@.len());
        digits(out, line.0 as u64, 2);
        digits(out, line.1 as u64, 2);
        proof {
            assert(view[i as int].2 == body@.subrange(
                view[i as int].0 as int,
                (view[i as int].0 + view[i as int].1) as int,
            ));
            lemma_part_bytes(body@, line.0 as int, line.0 + line.1);
        }
        text(out, line.2.as_str());
        proof {
            assert(view.take(i + 1).drop_last() =~= view.take(i as int));
        }
        i = i + 1;
        assert(out@ =~= start_out + lines_text(view.take(i as int)));
    }
    assert(view.take(i as int) =~= view);
}

/// Writes a line found for an offset.
fn write_found(out: &mut String, found: Option<(usize, usize, usize)>)
    requires
        found matches Some(t) ==> t.0 < 4096 && t.1 < 4096 && t.2 < 4096,
    ensures
        final(out)@ == old(out)@ + found_text(
            match found {
                Some(t) => Some((t.0 as nat, t.1 as nat, t.2 as nat)),
                None => None,
            },
        ),
{
    let ghost start_out = out@;
    proof {
        lemma2_to64();
    }
    flag(out, found.is_some());
    if let Some((lo, idx, col)) = found {
        digits(out, lo as u64, 2);
        digits(out, idx as u64, 2);
        digits(out, col as u64, 2);
        assert(out@ =~= start_out + found_text(Some((lo as nat, idx as nat, col as nat))));
    }
}

/// Query `q` of `body`, written down as it is drawn.
fn line_query(rng: &mut Rng, out: &mut String, body: &String, len: usize, q: u64)
    requires
        body@.len() <= 12 * 42,
        lines_cover(body@, lines_of(body@)),
        len == body@.len(),
    ensures
        ({
            let (s, o) = query_spec(old(rng).0, body@, q as nat);
            final(rng).0 == s && final(out)@ == old(out)@ + o
        }),
{
    let ghost start_out = out@;
    proof {
        lemma_case_text_short(body@);
        lemma_lines_inside(body@, lines_of(body@));
    }
    let bytes = q % 2 == 1;
    let qlen = if bytes {
        body.as_str().len()
    } else {
        len
    };
    let offset = random_offset(rng, qlen);
    digits(out, offset as u64, 2);
    let found = if bytes {
        byte_line(body.as_str(), offset)
    } else {
        offset_line(body.as_str(), offset)
    };
    proof {
        let lines = lines_of(body@);
        if let Some(t) = found {
            let starts = if bytes {
                byte_starts(body@, lines)
            } else {
                char_starts(lines)
            };
            assert(starts.len() == lines.len());
            lemma_line_index_inside(starts, offset as nat);
            let idx = line_index(starts, offset as nat);
            assert(lines[idx as int].0 + lines[idx as int].1 <= body@.len());
            assert(t.1 == idx);
            assert(t.0 == lines[idx as int].0);
            assert(lines[0].0 == 0);
            assert(starts[0] == 0) by {
                if bytes {
                    assert(body@.take(0) =~= Seq::<char>::empty());
                }
            }
            assert(t.2 <= offset);
        }
    }
    write_found(out, found);
    assert(out@ =~= start_out + query_spec(old(rng).0, body@, q as nat).1);
}

/// One line case, written down as it is drawn.
pub fn line_case(rng: &mut Rng, out: &mut String)
    ensures
        final(rng).0 == line_case_spec(old(rng).0).0,
        final(out)@ == old(out)@ + line_case_spec(old(rng).0).1,
{
    let ghost start_out = out@;
    let body = random_source(rng, false);
    proof {
        lemma_case_text_short(body@);
    }
    text(out, body.as_str());
    let lines = source_lines(body.as_str());
    proof {
        lemma_lines_inside(body@, lines_view(lines@));
    }
    digits(out, lines.len() as u64, 2);
    write_lines(out, &body, &lines);
    let len = source_len(body.as_str());
    digits(out, len as u64, 2);
    let ghost s1 = rng.0;
    let ghost mid = out@;
    let mut q: u64 = 0;
    while q < QUERIES
        invariant
            q <= QUERIES,
            body@.len() <= 12 * 42,
            lines_cover(body@, lines_of(body@)),
            len == body@.len(),
            ({
                let (s, o) = queries_spec(s1, body@, q as nat);
                rng.0 == s && out@ == mid + o
            }),
        decreases QUERIES - q,
    {
        line_query(rng, out, &body, len, q);
        q = q + 1;
        assert(out@ =~= mid + queries_spec(s1, body@, q as nat).1);
    }
    proof {
        lemma_case_text_short(body@);
    }
    let range = random_range(rng, body.as_str(), None);
    let covered = line_range(body.as_str(), &range);
    proof {
        let lines = lines_of(body@);
        let last = if range.end >= 1 && range.end - 1 > range.start {
            (range.end - 1) as nat
        } else {
            range.start as nat
        };
        lemma_line_index_inside(char_starts(lines), range.start as nat);
        lemma_line_index_inside(char_starts(lines), last);
    }
    digits(out, range.start as u64, 2);
    digits(out, range.end as u64, 2);
    digits(out, covered.start as u64, 2);
    digits(out, covered.end as u64, 2);
    assert(out@ =~= start_out + line_case_spec(old(rng).0).1);
}

} // verus!
