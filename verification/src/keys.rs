//! Composite 128-bit keys packing two 64-bit components.
//!
//! Double maps (account x club, tick x slot) are stored as flat hash maps
//! keyed by the packed pair. Packing is a bijection between pairs of `u64`
//! and `u128`, so reasoning about one pair never disturbs another.

use vstd::prelude::*;

verus! {

/// The packed key for the pair `(hi, lo)`.
pub open spec fn pair_key(hi: u64, lo: u64) -> u128 {
    ((hi as u128) << 64u128) | (lo as u128)
}

/// The high component of a packed key.
pub open spec fn key_hi(k: u128) -> u64 {
    (k >> 64u128) as u64
}

/// The low component of a packed key.
pub open spec fn key_lo(k: u128) -> u64 {
    k as u64
}

/// Packs a pair of components into a key.
pub fn make_key(hi: u64, lo: u64) -> (k: u128)
    ensures
        k == pair_key(hi, lo),
{
    ((hi as u128) << 64u128) | (lo as u128)
}

/// Packing is left-inverted by extracting the components.
pub proof fn lemma_pair_key_parts(hi: u64, lo: u64)
    ensures
        key_hi(pair_key(hi, lo)) == hi,
        key_lo(pair_key(hi, lo)) == lo,
{
    assert(((((hi as u128) << 64u128) | (lo as u128)) >> 64u128) as u64 == hi) by (bit_vector);
    assert(((((hi as u128) << 64u128) | (lo as u128)) as u64) == lo) by (bit_vector);
}

/// Every 128-bit key is the packing of its two components.
pub proof fn lemma_pair_key_roundtrip(k: u128)
    ensures
        pair_key(key_hi(k), key_lo(k)) == k,
{
    assert(((((k >> 64u128) as u64) as u128) << 64u128) | ((k as u64) as u128) == k)
        by (bit_vector);
}

/// Distinct pairs pack to distinct keys.
pub proof fn lemma_pair_key_injective(hi1: u64, lo1: u64, hi2: u64, lo2: u64)
    ensures
        pair_key(hi1, lo1) == pair_key(hi2, lo2) ==> hi1 == hi2 && lo1 == lo2,
{
    lemma_pair_key_parts(hi1, lo1);
    lemma_pair_key_parts(hi2, lo2);
}

} // verus!
