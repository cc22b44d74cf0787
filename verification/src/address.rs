//! Mock account identifiers and signatures.
//!
//! Addresses are opaque, equality-comparable, totally ordered account
//! identifiers.  Signatures are an unauthenticated mock tag: a valid
//! signature merely names the address that authorizes a spend, and no
//! cryptography is performed anywhere in this crate.

use vstd::prelude::*;

use crate::hashing::HASH_SEED;
use crate::hashing::mix;
use crate::hashing::mix_word;

verus! {

/// A public identifier that can own a coin.
///
/// A valid signature from the corresponding address is required to spend a
/// coin.  Predefined variants cover common names; `Custom` covers the rest.
#[derive(Clone, Copy, PartialEq, Eq, Structural, Hash, Debug, PartialOrd, Ord)]
pub enum Address {
    Alice,
    Bob,
    Charlie,
    Dave,
    Eve,
    Custom(u64),
}

/// A simulated cryptographic signature.
///
/// `Valid(a)` stands for a signature by the address `a` over the whole
/// spending transaction; it is never actually verified by the wallet.
#[derive(Clone, Copy, PartialEq, Eq, Structural, Hash, Debug, PartialOrd, Ord)]
pub enum Signature {
    /// A valid signature associated with a specific address.
    Valid(Address),
    /// An invalid signature.
    Invalid,
}

/// The variant tag that an address contributes to a hash.
pub open spec fn address_tag(a: Address) -> u64 {
    match a {
        Address::Alice => 1,
        Address::Bob => 2,
        Address::Charlie => 3,
        Address::Dave => 4,
        Address::Eve => 5,
        Address::Custom(_) => 6,
    }
}

/// The payload word that an address contributes to a hash.
pub open spec fn address_payload(a: Address) -> u64 {
    match a {
        Address::Custom(v) => v,
        _ => 0,
    }
}

/// The content hash of an address.
pub open spec fn address_hash(a: Address) -> u64 {
    mix(mix(HASH_SEED, address_tag(a)), address_payload(a))
}

/// The content hash of a signature.
pub open spec fn signature_hash(s: Signature) -> u64 {
    match s {
        Signature::Valid(a) => mix(mix(HASH_SEED, 1), address_hash(a)),
        Signature::Invalid => mix(HASH_SEED, 0),
    }
}

/// Computes the content hash of an address.
pub fn hash_address(a: &Address) -> (r: u64)
    ensures
        r == address_hash(*a),
{
    let tag: u64 = match a {
        Address::Alice => 1,
        Address::Bob => 2,
        Address::Charlie => 3,
        Address::Dave => 4,
        Address::Eve => 5,
        Address::Custom(_) => 6,
    };
    let payload: u64 = match a {
        Address::Custom(v) => *v,
        _ => 0,
    };
    mix_word(mix_word(HASH_SEED, tag), payload)
}

/// Computes the content hash of a signature.
pub fn hash_signature(s: &Signature) -> (r: u64)
    ensures
        r == signature_hash(*s),
{
    match s {
        Signature::Valid(a) => mix_word(mix_word(HASH_SEED, 1), hash_address(a)),
        Signature::Invalid => mix_word(HASH_SEED, 0),
    }
}

} // verus!
