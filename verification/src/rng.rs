//! A small deterministic generator (xorshift64*), so that the cases come out
//! the same on every run.
use vstd::prelude::*;

verus! {

/// The multiplier that scrambles the xorshift state into an output.
pub const SCRAMBLE: u64 = 0x2545_f491_4f6c_dd1d;

/// The state after one xorshift64 step.
pub closed spec fn step(s: u64) -> u64 {
    let a = s ^ (s >> 12u64);
    let b = a ^ (a << 25u64);
    b ^ (b >> 27u64)
}

/// The number drawn from the state `s`: the next state, scrambled.
pub closed spec fn output(s: u64) -> u64 {
    step(s).wrapping_mul(SCRAMBLE)
}

/// What `step` and `output` are: the three xorshift steps (right 12, left
/// 25, right 27), and the new state times `SCRAMBLE`, wrapping.
pub proof fn lemma_step_formula(s: u64)
    ensures
        ({
            let a = s ^ (s >> 12u64);
            let b = a ^ (a << 25u64);
            step(s) == b ^ (b >> 27u64)
        }),
        output(s) == step(s).wrapping_mul(SCRAMBLE),
{
}

/// A state that is not zero stays so, and zero stays zero: the generator
/// never falls into zero from elsewhere, and from zero every draw is zero.
pub proof fn lemma_zero_is_alone(s: u64)
    ensures
        s != 0 ==> step(s) != 0,
        s == 0 ==> step(s) == 0 && output(s) == 0,
{
    let a = s ^ (s >> 12u64);
    let b = a ^ (a << 25u64);
    let c = b ^ (b >> 27u64);
    assert(s != 0 ==> a != 0) by (bit_vector)
        requires
            a == s ^ (s >> 12u64),
    ;
    assert(a != 0 ==> b != 0) by (bit_vector)
        requires
            b == a ^ (a << 25u64),
    ;
    assert(b != 0 ==> c != 0) by (bit_vector)
        requires
            c == b ^ (b >> 27u64),
    ;
    assert(s == 0 ==> c == 0) by (bit_vector)
        requires
            a == s ^ (s >> 12u64),
            b == a ^ (a << 25u64),
            c == b ^ (b >> 27u64),
    ;
    assert(step(s) == c);
}

/// Multiplying by `SCRAMBLE`, wrapping, sends no number but zero to zero:
/// the multiplier is odd, so it has an inverse modulo 2^64.
proof fn lemma_scramble_keeps_nonzero(x: u64)
    requires
        x != 0,
    ensures
        x.wrapping_mul(SCRAMBLE) != 0,
{
    let m: int = 0x1_0000_0000_0000_0000;
    let inv: int = 0x5907_1d96_d81e_cd35;
    let j: int = 0x0cf6_5b3f_17bf_4a6b;
    let sc: int = SCRAMBLE as int;
    let xi: int = x as int;
    let p: int = xi * sc;
    assert(x.wrapping_mul(SCRAMBLE) == (p % m) as u64);
    if p % m == 0 {
        let q: int = p / m;
        vstd::arithmetic::div_mod::lemma_fundamental_div_mod(p, m);
        assert(p == m * q);
        assert(sc * inv == 1 + j * m);
        assert(xi * (sc * inv) == p * inv) by (nonlinear_arith)
            requires
                p == xi * sc,
        ;
        assert(xi + xi * j * m == m * q * inv) by (nonlinear_arith)
            requires
                xi * (sc * inv) == p * inv,
                sc * inv == 1 + j * m,
                p == m * q,
        ;
        let t: int = q * inv - xi * j;
        assert(xi == m * t) by (nonlinear_arith)
            requires
                xi + xi * j * m == m * q * inv,
                t == q * inv - xi * j,
        ;
        assert(false) by (nonlinear_arith)
            requires
                xi == m * t,
                0 < xi < m,
        ;
    }
}

/// A state that is not zero draws a number that is not zero.
pub proof fn lemma_draw_not_zero(s: u64)
    requires
        s != 0,
    ensures
        step(s) != 0,
        output(s) != 0,
{
    lemma_zero_is_alone(s);
    lemma_scramble_keeps_nonzero(step(s));
}

/// A draw below `n` from the state `s`.
pub open spec fn below_value(s: u64, n: u64) -> u64
    recommends n > 0,
{
    output(s) % n
}

/// A draw of `percent` in a hundred from the state `s`.
pub open spec fn chance_value(s: u64, percent: u64) -> bool {
    below_value(s, 100) < percent
}

/// The generator: its state is the whole of it.
pub struct Rng(pub u64);

impl Rng {
    /// Advances the state by one xorshift step and returns it scrambled.
    pub fn next(&mut self) -> (r: u64)
        ensures
            final(self).0 == step(old(self).0),
            r == output(old(self).0),
            old(self).0 != 0 ==> final(self).0 != 0 && r != 0,
    {
        proof {
            if self.0 != 0 {
                lemma_draw_not_zero(self.0);
            }
        }
        self.0 = self.0 ^ (self.0 >> 12u64);
        self.0 = self.0 ^ (self.0 << 25u64);
        self.0 = self.0 ^ (self.0 >> 27u64);
        self.0.wrapping_mul(SCRAMBLE)
    }

    /// A number below `n`: one draw, reduced modulo `n`.
    pub fn below(&mut self, n: u64) -> (r: u64)
        requires
            n > 0,
        ensures
            final(self).0 == step(old(self).0),
            r == below_value(old(self).0, n),
            r < n,
    {
        self.next() % n
    }

    /// True with a chance of `percent` in a hundred: one draw below 100,
    /// compared with `percent`.
    pub fn chance(&mut self, percent: u64) -> (r: bool)
        ensures
            final(self).0 == step(old(self).0),
            r == chance_value(old(self).0, percent),
    {
        self.below(100) < percent
    }

    /// One element of `xs`, at an index drawn below its length.
    pub fn pick<T: Copy>(&mut self, xs: &[T]) -> (r: T)
        requires
            xs@.len() > 0,
        ensures
            final(self).0 == step(old(self).0),
            r == xs@[below_value(old(self).0, xs@.len() as u64) as int],
            xs@.contains(r),
    {
        let k = self.below(xs.len() as u64);
        xs[k as usize]
    }
}

/// An offset into something of `len` units: mostly inside it, now and then
/// up to two past its end.
pub fn random_offset(rng: &mut Rng, len: usize) -> (r: usize)
    requires
        len + 3 <= u64::MAX,
    ensures
        final(rng).0 == step(old(rng).0),
        r == below_value(old(rng).0, (len + 3) as u64) as usize,
        len + 2 <= usize::MAX ==> r == below_value(old(rng).0, (len + 3) as u64),
        len + 2 <= usize::MAX ==> r <= len + 2,
{
    (rng.below(len as u64 + 3)) as usize
}

} // verus!
