//! FNV-1a, a hash that is stable across builds, which `DefaultHasher` does
//! not promise.
use vstd::prelude::*;
use vstd::string::*;

verus! {

/// The FNV-1a offset basis: the hash of no bytes.
pub const FNV_OFFSET: u64 = 0xcbf2_9ce4_8422_2325;

/// The FNV-1a prime.
pub const FNV_PRIME: u64 = 0x0100_0000_01b3;

/// One FNV-1a round: the byte folded into the hash, then the product.
pub open spec fn fnv_round(h: u64, b: u8) -> u64 {
    (h ^ (b as u64)).wrapping_mul(FNV_PRIME)
}

/// The hash `h` carried on over `bytes`.
pub open spec fn fnv_from(h: u64, bytes: Seq<u8>) -> u64
    decreases bytes.len(),
{
    if bytes.len() == 0 {
        h
    } else {
        fnv_round(fnv_from(h, bytes.drop_last()), bytes.last())
    }
}

/// FNV-1a of `bytes`.
pub open spec fn fnv1a(bytes: Seq<u8>) -> u64 {
    fnv_from(FNV_OFFSET, bytes)
}

/// FNV-1a of the UTF-8 bytes of `text`.
pub fn fingerprint(text: &str) -> (h: u64)
    ensures
        h == fnv1a(vstd::utf8::encode_utf8(text@)),
{
    let bytes = text.as_bytes();
    let mut h: u64 = FNV_OFFSET;
    let mut i: usize = 0;
    while i < bytes.len()
        invariant
            i <= bytes@.len(),
            bytes@ == text.spec_bytes(),
            h == fnv_from(FNV_OFFSET, bytes@.take(i as int)),
        decreases bytes@.len() - i,
    {
        let b = bytes[i];
        h = h ^ (b as u64);
        h = h.wrapping_mul(FNV_PRIME);
        assert(bytes@.take(i + 1).drop_last() =~= bytes@.take(i as int));
        i = i + 1;
    }
    assert(bytes@.take(i as int) =~= bytes@);
    h
}

/// Hashing a text in two parts: the hash of the whole is the hash of the
/// first part, carried on over the second.
pub proof fn lemma_fnv_concat(h: u64, a: Seq<u8>, b: Seq<u8>)
    ensures
        fnv_from(h, a + b) == fnv_from(fnv_from(h, a), b),
    decreases b.len(),
{
    if b.len() == 0 {
        assert(a + b =~= a);
    } else {
        lemma_fnv_concat(h, a, b.drop_last());
        assert((a + b).drop_last() =~= a + b.drop_last());
    }
}

} // verus!
