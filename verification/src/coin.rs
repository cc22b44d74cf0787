//! The basic `Coin` and `CoinId` types.
//!
//! A coin is a note with a value and an owner.  A coin with value zero is
//! never constructed by this wallet's own transaction builders, though one
//! observed in ledger data is tolerated.  Many coins share the same value
//! and owner, so a coin's identity is its `CoinId`, which is derived from
//! the transaction that created it, the height of the block that included
//! that transaction, and the coin's output index within the transaction.

use vstd::prelude::*;

use crate::address::Address;
use crate::address::address_hash;
use crate::address::hash_address;
use crate::hashing::HASH_SEED;
use crate::hashing::mix;
use crate::hashing::mix_word;

verus! {

/// A coin: a value denominated in the ledger's unit, and the address that
/// owns it and has the authority to spend it.
#[derive(Clone, Copy, PartialEq, Eq, Structural, Hash, Debug, PartialOrd, Ord)]
pub struct Coin {
    /// The value of this coin.
    pub value: u64,
    /// The address that owns this coin.
    pub owner: Address,
}

/// A unique identifier for a coin: a content hash linking the coin to the
/// transaction that created it, the block height of inclusion, and the
/// output index within that transaction.
#[derive(Clone, Copy, PartialEq, Eq, Structural, Hash, Debug, PartialOrd, Ord)]
pub struct CoinId(pub u64);

/// The content hash of a coin.
pub open spec fn coin_hash(c: Coin) -> u64 {
    mix(mix(HASH_SEED, c.value), address_hash(c.owner))
}

/// Computes the content hash of a coin.
pub fn hash_coin(c: &Coin) -> (r: u64)
    ensures
        r == coin_hash(*c),
{
    mix_word(mix_word(HASH_SEED, c.value), hash_address(&c.owner))
}

} // verus!
