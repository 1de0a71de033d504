//! Trusted views of the outside hash functions the core relies on.
//!
//! Each hash is a pure function of its arguments; its value is given a name
//! so that contracts can speak of it exactly, without restating the
//! algorithm.
use vstd::prelude::*;

verus! {

/// The 64-bit XXH3 hash of `data` under `seed`.
pub uninterp spec fn xxh3_64(seed: u64, data: Seq<u8>) -> u64;

/// Relies on twox_hash::xxh3::hash64_with_seed: the seeded 64-bit XXH3
/// hash, a function of the seed and the bytes alone.
#[verifier::external_body]
pub(crate) fn xxh3(data: &[u8], seed: u64) -> (r: u64)
    ensures
        r == xxh3_64(seed, data@),
{
    twox_hash::xxh3::hash64_with_seed(data, seed)
}

} // verus!
