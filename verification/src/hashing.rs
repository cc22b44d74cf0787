//! Deterministic content hashing.
//!
//! Identifiers in the ledger model are content-derived hashes.  Their only
//! contract is determinism: the same content always yields the same word.
//! The mixing step is the FNV-1a round, whose result is fully specified, so
//! every identifier computation is verified against its specification.

use vstd::prelude::*;

verus! {

/// The FNV-1a 64-bit offset basis, the seed of every hash chain.
pub const HASH_SEED: u64 = 0xcbf2_9ce4_8422_2325;

/// The FNV-1a 64-bit prime.
pub const HASH_PRIME: u64 = 0x0000_0100_0000_01b3;

/// One mixing round: absorb the word `x` into the accumulator `h`.
pub open spec fn mix(h: u64, x: u64) -> u64 {
    vstd::wrapping::u64_specs::wrapping_mul(h ^ x, HASH_PRIME)
}

/// Executable mixing round, exact against `mix`.
pub fn mix_word(h: u64, x: u64) -> (r: u64)
    ensures
        r == mix(h, x),
{
    (h ^ x).wrapping_mul(HASH_PRIME)
}

} // verus!
