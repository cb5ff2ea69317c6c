//! The colour-generator cases: a random generator state, brightness and
//! count, and the colours the generator makes from them.
use vstd::prelude::*;
use crate::encode::{decode_digits, digits, digits_spec, lemma_digits_roundtrip};
use crate::rng::{below_value, step, Rng};
use vstd::arithmetic::power2::lemma2_to64;

verus! {

/// A colour generator to try: its state, how its brightness is made (0: in
/// range, from `m`; 1: not a number; 2: negative, from `m`), the number
/// `m`, and how many colours to take from it.
#[derive(Clone, Copy, Debug)]
pub struct ColorCase {
    pub state: (u16, u16, u16),
    pub kind: u64,
    pub m: u64,
    pub n: u64,
}

/// A colour case drawn from `s`: the state after it and the case. The
/// brightness is in range three times in five, else not a number or
/// negative, one time in five each.
pub open spec fn color_case_spec(s: u64) -> (u64, ColorCase) {
    let s1 = step(s);
    let s2 = step(s1);
    let s3 = step(s2);
    let s4 = step(s3);
    let s5 = step(s4);
    let t = below_value(s3, 5);
    (
        step(s5),
        ColorCase {
            state: (
                below_value(s, 65536) as u16,
                below_value(s1, 65536) as u16,
                below_value(s2, 65536) as u16,
            ),
            kind: if t == 1 {
                1
            } else if t == 2 {
                2
            } else {
                0
            },
            m: below_value(s4, 80000),
            n: (1 + below_value(s5, 20)) as u64,
        },
    )
}

/// What is written for a case: the three state words (three digits each),
/// the kind, `m` (three digits) and the count.
pub open spec fn color_head_text(c: ColorCase) -> Seq<char> {
    digits_spec(c.state.0 as nat, 3) + digits_spec(c.state.1 as nat, 3) + digits_spec(
        c.state.2 as nat,
        3,
    ) + digits_spec(c.kind as nat, 1) + digits_spec(c.m as nat, 3) + digits_spec(c.n as nat, 1)
}

/// What is written for the colours a generator made: two digits each.
pub open spec fn colors_text(colors: Seq<u8>) -> Seq<char>
    decreases colors.len(),
{
    if colors.len() == 0 {
        seq![]
    } else {
        colors_text(colors.drop_last()) + digits_spec(colors.last() as nat, 2)
    }
}

/// A colour case, drawn.
pub fn random_color_case(rng: &mut Rng) -> (c: ColorCase)
    ensures
        (final(rng).0, c) == color_case_spec(old(rng).0),
        c.kind < 3,
        c.m < 80000,
        1 <= c.n <= 20,
{
    let a = rng.below(65536) as u16;
    let b = rng.below(65536) as u16;
    let d = rng.below(65536) as u16;
    let kind = match rng.below(5) {
        1 => 1,
        2 => 2,
        _ => 0,
    };
    let m = rng.below(80000);
    let n = 1 + rng.below(20);
    ColorCase { state: (a, b, d), kind, m, n }
}

/// Writes a colour case and the colours its generator made, exactly as many
/// as the case asks for.
pub fn write_color_case(out: &mut String, c: &ColorCase, colors: &Vec<u8>)
    requires
        c.kind < 64,
        c.m < 262144,
        c.n < 64,
        colors@.len() == c.n,
    ensures
        final(out)@ == old(out)@ + color_head_text(*c) + colors_text(colors@),
{
    proof {
        lemma2_to64();
    }
    let ghost start_out = out@;
    digits(out, c.state.0 as u64, 3);
    digits(out, c.state.1 as u64, 3);
    digits(out, c.state.2 as u64, 3);
    digits(out, c.kind, 1);
    digits(out, c.m, 3);
    digits(out, c.n, 1);
    assert(out@ =~= start_out + color_head_text(*c));
    let ghost mid = out@;
    let mut i: usize = 0;
    while i < colors.len()
        invariant
            i <= colors@.len(),
            vstd::arithmetic::power2::pow2(12) == 4096,
            out@ == mid + colors_text(colors@.take(i as int)),
        decreases colors@.len() - i,
    {
        digits(out, colors[i] as u64, 2);
        proof {
            assert(colors@.take(i + 1).drop_last() =~= colors@.take(i as int));
        }
        i = i + 1;
        assert(out@ =~= mid + colors_text(colors@.take(i as int)));
    }
    assert(colors@.take(i as int) =~= colors@);
}

/// The colours written, two digits each, read back one by one.
proof fn lemma_colors_read_back(colors: Seq<u8>)
    ensures
        colors_text(colors).len() == 2 * colors.len(),
        forall|i: int|
            0 <= i < colors.len() ==> decode_digits(
                #[trigger] colors_text(colors).subrange(2 * i, 2 * i + 2),
            ) == colors[i],
    decreases colors.len(),
{
    if colors.len() > 0 {
        let rest = colors.drop_last();
        lemma_colors_read_back(rest);
        lemma2_to64();
        lemma_digits_roundtrip(colors.last() as nat, 2);
        let t = colors_text(colors);
        let p = colors_text(rest);
        assert forall|i: int| 0 <= i < colors.len() implies decode_digits(
            #[trigger] t.subrange(2 * i, 2 * i + 2),
        ) == colors[i] by {
            if i < rest.len() {
                assert(t.subrange(2 * i, 2 * i + 2) =~= p.subrange(2 * i, 2 * i + 2));
                assert(rest[i] == colors[i]);
            } else {
                assert(t.subrange(2 * i, 2 * i + 2) =~= digits_spec(colors.last() as nat, 2));
            }
        }
    }
}

/// What is written for a colour case reads back to the case: the three
/// state words in order (three digits each), then the kind, `m` (three
/// digits) and the count, then each colour (two digits), nothing more.
pub proof fn lemma_color_case_reads_back(c: ColorCase, colors: Seq<u8>)
    requires
        c.kind < 64,
        c.m < 262144,
        c.n < 64,
    ensures
        ({
            let t = color_head_text(c) + colors_text(colors);
            &&& t.len() == 14 + 2 * colors.len()
            &&& decode_digits(t.subrange(0, 3)) == c.state.0
            &&& decode_digits(t.subrange(3, 6)) == c.state.1
            &&& decode_digits(t.subrange(6, 9)) == c.state.2
            &&& decode_digits(t.subrange(9, 10)) == c.kind
            &&& decode_digits(t.subrange(10, 13)) == c.m
            &&& decode_digits(t.subrange(13, 14)) == c.n
            &&& forall|i: int|
                0 <= i < colors.len() ==> decode_digits(
                    #[trigger] t.subrange(14 + 2 * i, 16 + 2 * i),
                ) == colors[i]
        }),
{
    lemma2_to64();
    lemma_digits_roundtrip(c.state.0 as nat, 3);
    lemma_digits_roundtrip(c.state.1 as nat, 3);
    lemma_digits_roundtrip(c.state.2 as nat, 3);
    lemma_digits_roundtrip(c.kind as nat, 1);
    lemma_digits_roundtrip(c.m as nat, 3);
    lemma_digits_roundtrip(c.n as nat, 1);
    lemma_colors_read_back(colors);
    let h = color_head_text(c);
    let ct = colors_text(colors);
    let t = h + ct;
    assert(t.subrange(0, 3) =~= digits_spec(c.state.0 as nat, 3));
    assert(t.subrange(3, 6) =~= digits_spec(c.state.1 as nat, 3));
    assert(t.subrange(6, 9) =~= digits_spec(c.state.2 as nat, 3));
    assert(t.subrange(9, 10) =~= digits_spec(c.kind as nat, 1));
    assert(t.subrange(10, 13) =~= digits_spec(c.m as nat, 3));
    assert(t.subrange(13, 14) =~= digits_spec(c.n as nat, 1));
    assert forall|i: int| 0 <= i < colors.len() implies decode_digits(
        #[trigger] t.subrange(14 + 2 * i, 16 + 2 * i),
    ) == colors[i] by {
        assert(t.subrange(14 + 2 * i, 16 + 2 * i) =~= ct.subrange(2 * i, 2 * i + 2));
    }
}

} // verus!
