//! The compact encoding of the cases: numbers as base-64 digits, strings as
//! their byte length and then their text, and the whole as one string
//! literal.
use vstd::prelude::*;
use vstd::arithmetic::power2::*;
use vstd::bits::*;
use vstd::string::*;

verus! {

/// The character that stands for the base-64 digit `d`: `'0' + d`, so the
/// digits run from `'0'` to `'o'`.
pub open spec fn digit_char(d: int) -> char {
    (48 + d) as char
}

/// The digit that `c` stands for.
pub open spec fn digit_value(c: char) -> int {
    c as int - 48
}

/// `value` as `n` base-64 digits, most significant first.
pub open spec fn digits_spec(value: nat, n: nat) -> Seq<char> {
    Seq::new(n, |i: int| digit_char(((value / pow2((6 * (n - 1 - i)) as nat)) % 64) as int))
}

/// The number that a run of base-64 digits stands for.
pub open spec fn decode_digits(s: Seq<char>) -> int
    decreases s.len(),
{
    if s.len() == 0 {
        0
    } else {
        decode_digits(s.drop_last()) * 64 + digit_value(s.last())
    }
}

/// Appends one character: `String::push`, which leaves the string as it was
/// with `c` added at its end.
#[verifier::external_body]
pub(crate) fn push_char(out: &mut String, c: char)
    ensures
        final(out)@ == old(out)@.push(c),
{
    out.push(c);
}

/// A number as `digits` base-64 digits, most significant first, each digit the
/// character `'0' + d`: `'0'` to `'o'`, one contiguous run of ASCII.
pub fn digits(out: &mut String, value: u64, digits: u32)
    requires
        digits <= 10,
        value < pow2((6 * digits) as nat),
    ensures
        final(out)@ == old(out)@ + digits_spec(value as nat, digits as nat),
{
    let ghost start = out@;
    let mut k: u32 = digits;
    while k > 0
        invariant
            k <= digits <= 10,
            out@ == start + digits_spec(value as nat, digits as nat).take(digits - k),
        decreases k,
    {
        k = k - 1;
        let shift: u64 = 6 * k as u64;
        let shifted: u64 = value >> shift;
        proof {
            lemma_u64_shr_is_div(value, shift);
        }
        let d: u64 = shifted & 63;
        assert(d == shifted % 64) by (bit_vector)
            requires d == shifted & 63;
        let c: char = (48u8 + d as u8) as char;
        push_char(out, c);
        proof {
            let full = digits_spec(value as nat, digits as nat);
            assert(full[digits - 1 - k] == c);
            assert(full.take(digits - k) == full.take(digits - 1 - k).push(c));
        }
    }
    assert(digits_spec(value as nat, digits as nat).take(digits as int) == digits_spec(
        value as nat,
        digits as nat,
    ));
}


/// Every digit of `digits_spec` is one of `'0'` to `'o'`.
pub open spec fn all_digits(s: Seq<char>) -> bool {
    forall|i: int| 0 <= i < s.len() ==> '0' <= #[trigger] s[i] && s[i] <= 'o'
}

/// All but the last digit of `value` are the digits of `value / 64`.
proof fn lemma_digits_drop_last(value: nat, n: nat)
    requires
        n > 0,
    ensures
        digits_spec(value, n).drop_last() == digits_spec(value / 64, (n - 1) as nat),
        digits_spec(value, n).last() == digit_char((value % 64) as int),
{
    let a = digits_spec(value, n).drop_last();
    let b = digits_spec(value / 64, (n - 1) as nat);
    assert forall|i: int| 0 <= i < a.len() implies a[i] == b[i] by {
        let e = (6 * (n - 2 - i)) as nat;
        lemma2_to64();
        lemma_pow2_adds(6, e);
        lemma_pow2_pos(e);
        vstd::arithmetic::div_mod::lemma_div_denominator(value as int, 64, pow2(e) as int);
        assert((6 * (n - 1 - i)) as nat == 6 + e);
    }
    assert(a =~= b);
    lemma2_to64();
    assert((6 * (n - 1 - (n - 1))) as nat == 0);
    assert(value / pow2(0) == value);
}

/// Reading back the digits of `value` gives `value`, and every digit is one
/// of `'0'` to `'o'`.
pub proof fn lemma_digits_roundtrip(value: nat, n: nat)
    requires
        value < pow2(6 * n),
    ensures
        decode_digits(digits_spec(value, n)) == value,
        digits_spec(value, n).len() == n,
        all_digits(digits_spec(value, n)),
    decreases n,
{
    let s = digits_spec(value, n);
    assert forall|i: int| 0 <= i < s.len() implies '0' <= #[trigger] s[i] && s[i] <= 'o' by {
        let d = (value / pow2((6 * (n - 1 - i)) as nat)) % 64;
        assert(0 <= d < 64);
    }
    if n == 0 {
        lemma2_to64();
        assert(value == 0);
    } else {
        lemma_digits_drop_last(value, n);
        lemma2_to64();
        lemma_pow2_adds(6, (6 * (n - 1)) as nat);
        assert((6 * n) as nat == 6 + (6 * (n - 1)) as nat);
        assert(value / 64 < pow2((6 * (n - 1)) as nat));
        lemma_digits_roundtrip(value / 64, (n - 1) as nat);
    }
}

/// One digit is the digit character itself.
pub proof fn lemma_one_digit(value: nat)
    requires
        value < 64,
    ensures
        digits_spec(value, 1) == seq![digit_char(value as int)],
        value < pow2(6),
{
    lemma2_to64();
    assert((6 * (1 - 1 - 0)) as nat == 0);
    assert(value / pow2(0) == value);
    assert(value % 64 == value);
    assert(digits_spec(value, 1)[0] == digit_char(value as int));
    assert(digits_spec(value, 1) =~= seq![digit_char(value as int)]);
}

/// Whether `a` comes before `b` in dictionary order: at the first place
/// where they differ, `a` has the smaller character.
pub open spec fn lex_less(a: Seq<char>, b: Seq<char>) -> bool {
    exists|i: int|
        0 <= i < a.len() && i < b.len() && #[trigger] a.take(i) == b.take(i) && (a[i] as int) < (
        b[i] as int)
}

/// The digits keep the order of numbers: of two numbers written with the
/// same number of digits, the smaller comes first in dictionary order.
pub proof fn lemma_digits_keep_order(v1: nat, v2: nat, n: nat)
    requires
        v1 < v2 < pow2(6 * n),
    ensures
        digits_spec(v1, n).len() == n,
        digits_spec(v2, n).len() == n,
        lex_less(digits_spec(v1, n), digits_spec(v2, n)),
    decreases n,
{
    lemma2_to64();
    if n == 0 {
        assert(false);
    } else {
        let a = digits_spec(v1, n);
        let b = digits_spec(v2, n);
        lemma_digits_drop_last(v1, n);
        lemma_digits_drop_last(v2, n);
        lemma_pow2_adds(6, (6 * (n - 1)) as nat);
        assert((6 * n) as nat == 6 + (6 * (n - 1)) as nat);
        let q1 = v1 / 64;
        let q2 = v2 / 64;
        assert(q2 < pow2((6 * (n - 1)) as nat));
        if q1 < q2 {
            lemma_digits_keep_order(q1, q2, (n - 1) as nat);
            let pa = digits_spec(q1, (n - 1) as nat);
            let pb = digits_spec(q2, (n - 1) as nat);
            let i = choose|i: int|
                0 <= i < pa.len() && i < pb.len() && #[trigger] pa.take(i) == pb.take(i) && (
                pa[i] as int) < (pb[i] as int);
            assert(a.take(i) =~= pa.take(i));
            assert(b.take(i) =~= pb.take(i));
            assert(a[i] == pa[i]);
            assert(b[i] == pb[i]);
            assert(a.take(i) == b.take(i));
        } else {
            assert(q1 == q2);
            assert(v1 % 64 < v2 % 64);
            let i = (n - 1) as int;
            assert(a.take(i) =~= a.drop_last());
            assert(b.take(i) =~= b.drop_last());
            assert(a.take(i) == b.take(i));
            assert(a[i] == digit_char((v1 % 64) as int));
            assert(b[i] == digit_char((v2 % 64) as int));
            assert((a[i] as int) < (b[i] as int));
        }
    }
}

/// The offset that makes a signed number of `n` digits non-negative:
/// half the range that `n` digits hold.
pub open spec fn half_range(n: nat) -> int {
    pow2((6 * n - 1) as nat) as int
}

/// A signed number, offset to fit `n` digits.
pub fn signed(out: &mut String, value: i64, n: u32)
    requires
        1 <= n <= 10,
        -half_range(n as nat) <= value < half_range(n as nat),
    ensures
        final(out)@ == old(out)@ + digits_spec((value + half_range(n as nat)) as nat, n as nat),
{
    let shift: u64 = (6 * n - 1) as u64;
    proof {
        lemma_pow2_strictly_increases(shift as nat, 63);
        lemma2_to64();
        lemma2_to64_rest();
        lemma_u64_shl_is_mul(1, shift);
        lemma_pow2_adds(shift as nat, 1);
    }
    let half: i64 = (1u64 << shift) as i64;
    digits(out, (value + half) as u64, n);
}

/// The number of bytes of `s` in UTF-8.
pub open spec fn byte_len(s: Seq<char>) -> nat {
    vstd::utf8::encode_utf8(s).len()
}

/// A text has at least as many bytes as characters.
pub proof fn lemma_byte_len_at_least_chars(s: Seq<char>)
    ensures
        byte_len(s) >= s.len(),
    decreases s.len(),
{
    if s.len() > 0 {
        lemma_byte_len_at_least_chars(s.drop_first());
    }
}

/// A text has at most four bytes for each character.
pub proof fn lemma_byte_len_at_most_four(s: Seq<char>)
    ensures
        byte_len(s) <= 4 * s.len(),
    decreases s.len(),
{
    if s.len() > 0 {
        lemma_byte_len_at_most_four(s.drop_first());
    }
}

/// The bytes of two texts joined are the bytes of each, joined.
pub proof fn lemma_encode_utf8_concat(a: Seq<char>, b: Seq<char>)
    ensures
        vstd::utf8::encode_utf8(a + b) == vstd::utf8::encode_utf8(a) + vstd::utf8::encode_utf8(b),
    decreases a.len(),
{
    if a.len() == 0 {
        assert(a + b =~= b);
    } else {
        lemma_encode_utf8_concat(a.drop_first(), b);
        assert((a + b).drop_first() =~= a.drop_first() + b);
    }
}

/// A string, as its length in bytes (3 digits) and then its text.
pub open spec fn text_spec(s: Seq<char>) -> Seq<char> {
    digits_spec(byte_len(s), 3) + s
}

/// A string reads back as its byte length, from the first three digits, and
/// then the string itself.
pub proof fn lemma_text_roundtrip(s: Seq<char>)
    requires
        byte_len(s) < pow2(18),
    ensures
        decode_digits(text_spec(s).take(3)) == byte_len(s),
        text_spec(s).skip(3) == s,
{
    lemma_digits_roundtrip(byte_len(s), 3);
    assert(text_spec(s).take(3) =~= digits_spec(byte_len(s), 3));
    assert(text_spec(s).skip(3) =~= s);
}

/// A longer start of a text has more bytes.
pub proof fn lemma_byte_len_take_increases(t: Seq<char>, j: int, k: int)
    requires
        0 <= j < k <= t.len(),
    ensures
        byte_len(t.take(j)) < byte_len(t.take(k)),
{
    assert(t.take(k) =~= t.take(j) + t.subrange(j, k));
    lemma_encode_utf8_concat(t.take(j), t.subrange(j, k));
    lemma_byte_len_at_least_chars(t.subrange(j, k));
}

/// A string written with `text` and followed by anything reads back: of the
/// characters after the three digits, exactly the first `s.len()` have as
/// many bytes as the digits say.
pub proof fn lemma_text_reads_back(s: Seq<char>, rest: Seq<char>)
    requires
        byte_len(s) < pow2(18),
    ensures
        decode_digits((text_spec(s) + rest).take(3)) == byte_len(s),
        forall|k: int|
            0 <= k <= s.len() + rest.len() ==> (byte_len(
                #[trigger] (text_spec(s) + rest).skip(3).take(k),
            ) == byte_len(s) <==> k == s.len()),
        (text_spec(s) + rest).skip(3).take(s.len() as int) == s,
{
    lemma_digits_roundtrip(byte_len(s), 3);
    let t = (text_spec(s) + rest).skip(3);
    assert((text_spec(s) + rest).take(3) =~= digits_spec(byte_len(s), 3));
    assert(t =~= s + rest);
    assert(t.take(s.len() as int) =~= s);
    assert forall|k: int| 0 <= k <= s.len() + rest.len() implies (byte_len(#[trigger] t.take(k))
        == byte_len(s) <==> k == s.len()) by {
        if k < s.len() {
            lemma_byte_len_take_increases(t, k, s.len() as int);
        } else if k > s.len() {
            lemma_byte_len_take_increases(t, s.len() as int, k);
        }
    }
}

/// A signed number reads back as its digits less the offset.
pub proof fn lemma_signed_roundtrip(value: int, n: nat)
    requires
        1 <= n <= 10,
        -half_range(n) <= value < half_range(n),
    ensures
        decode_digits(digits_spec((value + half_range(n)) as nat, n)) - half_range(n) == value,
{
    lemma_pow2_adds((6 * n - 1) as nat, 1);
    lemma2_to64();
    assert((6 * n) as nat == (6 * n - 1) as nat + 1);
    lemma_digits_roundtrip((value + half_range(n)) as nat, n);
}

/// A string, as its length in bytes (3 digits) and then its bytes.
pub fn text(out: &mut String, s: &str)
    requires
        byte_len(s@) < pow2(18),
    ensures
        final(out)@ == old(out)@ + text_spec(s@),
{
    let ghost start = out@;
    proof {
        lemma2_to64();
    }
    let n = s.len();
    digits(out, n as u64, 3);
    out.append(s);
    assert(out@ =~= start + text_spec(s@));
}

/// A flag as one digit: `'1'` or `'0'`.
pub open spec fn flag_spec(b: bool) -> Seq<char> {
    digits_spec(if b { 1 } else { 0 }, 1)
}

/// A flag as one digit.
pub fn flag(out: &mut String, b: bool)
    ensures
        final(out)@ == old(out)@ + flag_spec(b),
        flag_spec(b) == seq![if b { '1' } else { '0' }],
{
    proof {
        lemma_one_digit(if b { 1 } else { 0 });
    }
    digits(out, if b { 1 } else { 0 }, 1);
}


/// The upper-case hexadecimal digit for `d`.
pub open spec fn hex_char(d: int) -> char {
    if d < 10 {
        (48 + d) as char
    } else {
        (55 + d) as char
    }
}

/// `v` in upper-case hexadecimal, without leading zeros (`0` is `"0"`).
pub open spec fn hex_spec(v: nat) -> Seq<char>
    decreases v,
{
    if v < 16 {
        seq![hex_char(v as int)]
    } else {
        hex_spec(v / 16).push(hex_char((v % 16) as int))
    }
}

/// Appends `v` in upper-case hexadecimal, as `{:X}` writes it.
fn push_hex(out: &mut String, v: u32)
    ensures
        final(out)@ == old(out)@ + hex_spec(v as nat),
    decreases v,
{
    let ghost start = out@;
    if v >= 16 {
        push_hex(out, v / 16);
    }
    let d: u32 = v % 16;
    let c: char = if d < 10 {
        (48u8 + d as u8) as char
    } else {
        (55u8 + d as u8) as char
    };
    push_char(out, c);
    assert(out@ =~= start + hex_spec(v as nat));
}

/// Whether `c` is written raw in a literal: printable ASCII, box-drawing
/// characters and block elements, kana and CJK ideographs.
pub open spec fn is_raw(c: char) -> bool {
    ||| (' ' <= c && c <= '~')
    ||| ('\u{2500}' <= c && c <= '\u{259F}')
    ||| ('\u{3040}' <= c && c <= '\u{30FF}')
    ||| ('\u{4E00}' <= c && c <= '\u{9FFF}')
}

/// How one character is written in a literal; `line_start` says that it
/// opens a continued line, where a space would be dropped.
pub open spec fn escape_spec(c: char, line_start: bool) -> Seq<char> {
    if c == '"' {
        seq!['\\', '"']
    } else if c == '\\' {
        seq!['\\', '\\']
    } else if c == '$' {
        seq!['\\', '$']
    } else if c == ' ' && line_start {
        seq!['\\', 'x', '2', '0']
    } else if is_raw(c) {
        seq![c]
    } else {
        seq!['\\', 'u', '{'] + hex_spec(c as nat) + seq!['}']
    }
}

/// Appends `c` as a literal writes it.
fn push_escaped(out: &mut String, c: char, line_start: bool)
    ensures
        final(out)@ == old(out)@ + escape_spec(c, line_start),
{
    let ghost start = out@;
    proof {
        reveal_strlit("\\\"");
        reveal_strlit("\\\\");
        reveal_strlit("\\$");
        reveal_strlit("\\x20");
        reveal_strlit("\\u{");
    }
    let u: u32 = c as u32;
    if c == '"' {
        out.append("\\\"");
    } else if c == '\\' {
        out.append("\\\\");
    } else if c == '$' {
        out.append("\\$");
    } else if c == ' ' && line_start {
        out.append("\\x20");
    } else if (0x20 <= u && u <= 0x7E) || (0x2500 <= u && u <= 0x259F) || (0x3040 <= u && u
        <= 0x30FF) || (0x4E00 <= u && u <= 0x9FFF) {
        push_char(out, c);
    } else {
        out.append("\\u{");
        push_hex(out, u);
        push_char(out, '}');
    }
    assert(out@ =~= start + escape_spec(c, line_start));
}

/// The break that continues a literal on the next line.
pub open spec fn line_break() -> Seq<char> {
    seq!['\\', '\n', ' ', ' ', ' ', ' ']
}

/// Whether the character at index `i` opens a new line of the literal.
pub open spec fn opens_line(i: int, width: nat) -> bool {
    i > 0 && i % (width as int) == 0
}

/// The character at index `i` of the text, as the literal writes it.
pub open spec fn piece_spec(c: char, i: int, width: nat) -> Seq<char> {
    if opens_line(i, width) {
        line_break() + escape_spec(c, true)
    } else {
        escape_spec(c, false)
    }
}

/// The inside of the literal for the text `s`.
pub open spec fn literal_body(s: Seq<char>, width: nat) -> Seq<char>
    decreases s.len(),
{
    if s.len() == 0 {
        seq![]
    } else {
        literal_body(s.drop_last(), width) + piece_spec(s.last(), s.len() - 1, width)
    }
}

/// The whole literal: the body between double quotes.
pub open spec fn long_literal_spec(s: Seq<char>, width: nat) -> Seq<char> {
    seq!['"'] + literal_body(s, width) + seq!['"']
}

/// `text` as one Meadow string literal, broken with `\`-newline every `width`
/// characters. Printable ASCII, box-drawing characters and CJK are written
/// raw, and everything else escaped; a space that would start a line is
/// `\x20`, since a continuation drops leading whitespace.
pub fn long_literal(text: &str, width: usize) -> (r: String)
    requires
        width > 0,
        byte_len(text@) + byte_len(text@) / (width as nat) * 4 + 2 <= usize::MAX,
    ensures
        r@ == long_literal_spec(text@, width as nat),
{
    broadcast use vstd::string::group_string_axioms;
    proof {
        lemma_byte_len_at_least_chars(text@);
    }
    let mut out = String::new();
    push_char(&mut out, '"');
    let mut i: usize = 0;
    for c in it: text.chars()
        invariant
            width > 0,
            it.seq() == text@,
            i == it.index(),
            text@.len() <= usize::MAX,
            out@ == seq!['"'] + literal_body(text@.take(i as int), width as nat),
    {
        let ghost before = out@;
        let line_start = i > 0 && i % width == 0;
        if line_start {
            out.append("\\\n    ");
        }
        push_escaped(&mut out, c, line_start);
        proof {
            assert(c == text@[i as int]);
            reveal_strlit("\\\n    ");
            assert("\\\n    "@ =~= line_break());
            assert(text@.take(i + 1).drop_last() =~= text@.take(i as int));
            assert(out@ =~= before + piece_spec(c, i as int, width as nat));
        }
        i = i + 1;
    }
    push_char(&mut out, '"');
    assert(text@.take(i as int) =~= text@);
    out
}


// --- reading a literal back ---------------------------------------------------------

/// The value of a hexadecimal digit, in either case.
pub open spec fn hex_value(c: char) -> Option<nat> {
    if '0' <= c && c <= '9' {
        Some((c as int - 48) as nat)
    } else if 'A' <= c && c <= 'F' {
        Some((c as int - 55) as nat)
    } else if 'a' <= c && c <= 'f' {
        Some((c as int - 87) as nat)
    } else {
        None
    }
}

/// Reads hexadecimal digits from the front of `s` on top of `acc`: the
/// number, and what follows the digits.
pub open spec fn read_hex(s: Seq<char>, acc: nat) -> (nat, Seq<char>)
    decreases s.len(),
{
    if s.len() > 0 && hex_value(s[0]) is Some {
        read_hex(s.skip(1), acc * 16 + hex_value(s[0]).unwrap())
    } else {
        (acc, s)
    }
}

/// Whether `c` is dropped after a line continuation.
pub open spec fn is_blank(c: char) -> bool {
    c == ' ' || c == '\t' || c == '\n' || c == '\r'
}

/// `s` without the blanks at its front.
pub open spec fn skip_blanks(s: Seq<char>) -> Seq<char>
    decreases s.len(),
{
    if s.len() > 0 && is_blank(s[0]) {
        skip_blanks(s.skip(1))
    } else {
        s
    }
}

/// Dropping blanks makes nothing longer.
pub proof fn lemma_skip_blanks_len(s: Seq<char>)
    ensures
        skip_blanks(s).len() <= s.len(),
    decreases s.len(),
{
    if s.len() > 0 && is_blank(s[0]) {
        lemma_skip_blanks_len(s.skip(1));
    }
}

/// Reading hexadecimal digits makes nothing longer.
pub proof fn lemma_read_hex_len(s: Seq<char>, acc: nat)
    ensures
        read_hex(s, acc).1.len() <= s.len(),
    decreases s.len(),
{
    if s.len() > 0 && hex_value(s[0]) is Some {
        lemma_read_hex_len(s.skip(1), acc * 16 + hex_value(s[0]).unwrap());
    }
}

/// `c` put before what was read, where it was read.
pub open spec fn prepend(c: char, r: Option<Seq<char>>) -> Option<Seq<char>> {
    match r {
        Some(t) => Some(seq![c] + t),
        None => None,
    }
}

/// The text that the inside of a Meadow string literal stands for, or
/// `None` where it is not one: a plain character stands for itself (but for
/// `"` and `$`, which must be escaped); `\"`, `\\` and `\$` for the escaped
/// character; `\xHH` and `\u{H..}` for the character with that code;
/// a backslash at the end of a line continues the literal on the next, whose
/// leading blanks are dropped.
pub open spec fn read_literal(s: Seq<char>) -> Option<Seq<char>>
    decreases s.len(),
{
    if s.len() == 0 {
        Some(seq![])
    } else if s[0] != '\\' {
        if s[0] == '"' || s[0] == '$' {
            None
        } else {
            prepend(s[0], read_literal(s.skip(1)))
        }
    } else if s.len() < 2 {
        None
    } else if s[1] == '"' || s[1] == '\\' || s[1] == '$' {
        prepend(s[1], read_literal(s.skip(2)))
    } else if s[1] == '\n' {
        proof {
            lemma_skip_blanks_len(s.skip(2));
        }
        read_literal(skip_blanks(s.skip(2)))
    } else if s[1] == 'x' && s.len() >= 4 && hex_value(s[2]) is Some && hex_value(s[3]) is Some {
        prepend(
            (hex_value(s[2]).unwrap() * 16 + hex_value(s[3]).unwrap()) as char,
            read_literal(s.skip(4)),
        )
    } else if s[1] == 'u' && s.len() >= 3 && s[2] == '{' {
        let (v, rest) = read_hex(s.skip(3), 0);
        proof {
            lemma_read_hex_len(s.skip(3), 0);
        }
        if rest.len() > 0 && rest[0] == '}' && rest.len() < s.len() - 3 {
            prepend(v as char, read_literal(rest.skip(1)))
        } else {
            None
        }
    } else {
        None
    }
}

/// The text that a whole Meadow string literal stands for: what is between
/// its quotes, read.
pub open spec fn read_string(s: Seq<char>) -> Option<Seq<char>> {
    if s.len() >= 2 && s[0] == '"' && s.last() == '"' {
        read_literal(s.subrange(1, s.len() - 1))
    } else {
        None
    }
}

/// The scale of the hexadecimal digits of `v`: 16 to the power of their
/// number.
pub open spec fn hex_scale(v: nat) -> nat
    decreases v,
{
    if v < 16 {
        16
    } else {
        16 * hex_scale(v / 16)
    }
}

/// The digits of `v`, read on top of `acc`, add `v` to `acc` shifted past
/// them.
proof fn lemma_read_hex_spec(v: nat, t: Seq<char>, acc: nat)
    ensures
        read_hex(hex_spec(v) + t, acc) == read_hex(t, acc * hex_scale(v) + v),
    decreases v,
{
    if v < 16 {
        let s = hex_spec(v) + t;
        assert(s[0] == hex_char(v as int));
        assert(hex_value(s[0]) == Some(v));
        assert(s.skip(1) =~= t);
    } else {
        let q = v / 16;
        let d = v % 16;
        assert(hex_spec(v) + t =~= hex_spec(q) + (seq![hex_char(d as int)] + t));
        lemma_read_hex_spec(q, seq![hex_char(d as int)] + t, acc);
        let x = acc * hex_scale(q) + q;
        let s = seq![hex_char(d as int)] + t;
        assert(hex_value(s[0]) == Some(d));
        assert(s.skip(1) =~= t);
        assert(x * 16 + d == acc * hex_scale(v) + v) by (nonlinear_arith)
            requires
                x == acc * hex_scale(q) + q,
                hex_scale(v) == 16 * hex_scale(q),
                v == 16 * q + d,
        ;
    }
}

/// The hexadecimal digits of `v` are not empty.
proof fn lemma_hex_spec_not_empty(v: nat)
    ensures
        hex_spec(v).len() >= 1,
    decreases v,
{
    if v >= 16 {
        lemma_hex_spec_not_empty(v / 16);
    }
}

/// Reading one written character back gives the character, and then the
/// rest is read as before.
proof fn lemma_read_escape(c: char, line_start: bool, rest: Seq<char>)
    ensures
        read_literal(escape_spec(c, line_start) + rest) == prepend(c, read_literal(rest)),
        escape_spec(c, line_start).len() > 0,
        line_start ==> !is_blank(escape_spec(c, line_start)[0]),
{
    let e = escape_spec(c, line_start);
    let s = e + rest;
    if c == '"' || c == '\\' || c == '$' {
        assert(s.skip(2) =~= rest);
    } else if c == ' ' && line_start {
        assert(s.skip(4) =~= rest);
        assert(hex_value('2') == Some(2nat));
        assert(hex_value('0') == Some(0nat));
        assert(((2nat * 16 + 0nat) as char) == ' ');
    } else if is_raw(c) {
        assert(s.skip(1) =~= rest);
    } else {
        let h = hex_spec(c as nat);
        lemma_hex_spec_not_empty(c as nat);
        assert(s.skip(3) =~= h + (seq!['}'] + rest));
        lemma_read_hex_spec(c as nat, seq!['}'] + rest, 0);
        let t = seq!['}'] + rest;
        assert(hex_value(t[0]) is None);
        assert(read_hex(t, c as nat) == (c as nat, t));
        assert(t.skip(1) =~= rest);
        vstd::utf8::char_u32_cast(c, c as u32);
        assert((c as nat) as char == c);
    }
}

/// Reading one character of the literal back, with the line break before
/// it where there is one.
proof fn lemma_read_piece(c: char, i: int, width: nat, rest: Seq<char>)
    ensures
        read_literal(piece_spec(c, i, width) + rest) == prepend(c, read_literal(rest)),
{
    lemma_read_escape(c, opens_line(i, width), rest);
    if opens_line(i, width) {
        let e = escape_spec(c, true) + rest;
        let s = piece_spec(c, i, width) + rest;
        assert(s =~= line_break() + e);
        assert(s.skip(2) =~= seq![' ', ' ', ' ', ' '] + e);
        let b4 = seq![' ', ' ', ' ', ' '] + e;
        let b3 = seq![' ', ' ', ' '] + e;
        let b2 = seq![' ', ' '] + e;
        let b1 = seq![' '] + e;
        assert(b4.skip(1) =~= b3);
        assert(b3.skip(1) =~= b2);
        assert(b2.skip(1) =~= b1);
        assert(b1.skip(1) =~= e);
        assert(skip_blanks(e) == e);
        assert(skip_blanks(b1) == e);
        assert(skip_blanks(b2) == e);
        assert(skip_blanks(b3) == e);
        assert(skip_blanks(b4) == e);
        assert(s[0] == '\\' && s[1] == '\n');
    }
}

/// Reading the body of a literal back, and then anything after it.
proof fn lemma_read_body(s: Seq<char>, width: nat, rest: Seq<char>)
    ensures
        read_literal(literal_body(s, width) + rest) == match read_literal(rest) {
            Some(r) => Some(s + r),
            None => None,
        },
    decreases s.len(),
{
    if s.len() == 0 {
        assert(literal_body(s, width) + rest =~= rest);
        if let Some(r) = read_literal(rest) {
            assert(s + r =~= r);
        }
    } else {
        let p = piece_spec(s.last(), s.len() - 1, width);
        let prefix = s.drop_last();
        assert(literal_body(s, width) + rest =~= literal_body(prefix, width) + (p + rest));
        lemma_read_body(prefix, width, p + rest);
        lemma_read_piece(s.last(), s.len() - 1, width, rest);
        if let Some(r) = read_literal(rest) {
            assert(prefix + (seq![s.last()] + r) =~= s + r);
        }
    }
}

/// A long literal reads back as the text it was made from.
pub proof fn lemma_long_literal_reads_back(s: Seq<char>, width: nat)
    ensures
        read_string(long_literal_spec(s, width)) == Some(s),
{
    let l = long_literal_spec(s, width);
    lemma_read_body(s, width, seq![]);
    assert(literal_body(s, width) + seq![] =~= literal_body(s, width));
    assert(l.subrange(1, l.len() - 1) =~= literal_body(s, width));
    assert(s + seq![] =~= s);
}

} // verus!
