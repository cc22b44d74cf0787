//! UTXO-style transactions.
//!
//! A transaction consumes zero or more inputs and creates zero or more
//! output coins.  Its identifier is derived from its full content,
//! independent of where it is included; the identifier of a created coin
//! additionally binds the inclusion height and the output index, so the
//! same transaction body replayed at a different height yields different
//! coin identifiers.

use vstd::prelude::*;

use crate::address::Signature;
use crate::address::signature_hash;
use crate::address::hash_signature;
use crate::coin::Coin;
use crate::coin::CoinId;
use crate::coin::coin_hash;
use crate::coin::hash_coin;
use crate::hashing::HASH_SEED;
use crate::hashing::mix;
use crate::hashing::mix_word;

verus! {

/// Information about a coin consumed by a transaction: which coin is being
/// spent, and a (mock) signature by the coin's owner over the whole
/// spending transaction.
#[derive(Clone, Copy, PartialEq, Eq, Structural, Hash, Debug, PartialOrd, Ord)]
pub struct Input {
    /// The coin being spent.
    pub coin_id: CoinId,
    /// A signature over the entire transaction spending the coin.
    pub signature: Signature,
}

/// A transaction: an ordered list of inputs consumed and an ordered list
/// of output coins created.
#[derive(Clone, PartialEq, Eq, Hash, Debug, PartialOrd, Ord)]
pub struct Transaction {
    pub inputs: Vec<Input>,
    pub outputs: Vec<Coin>,
}

/// The mathematical content of a transaction: its two lists, as sequences.
pub struct TransactionView {
    pub inputs: Seq<Input>,
    pub outputs: Seq<Coin>,
}

impl View for Transaction {
    type V = TransactionView;

    open spec fn view(&self) -> TransactionView {
        TransactionView { inputs: self.inputs@, outputs: self.outputs@ }
    }
}

/// A unique identifier for a transaction: the hash of the transaction's
/// content.
#[derive(Clone, Copy, PartialEq, Eq, Structural, Hash, Debug, PartialOrd, Ord)]
pub struct TransactionId(pub u64);

/// The content hash of an input.
pub open spec fn input_hash(i: Input) -> u64 {
    mix(mix(HASH_SEED, i.coin_id.0), signature_hash(i.signature))
}

/// Folds the hashes of a sequence of inputs into an accumulator.
pub open spec fn fold_inputs(acc: u64, s: Seq<Input>) -> u64
    decreases s.len(),
{
    if s.len() == 0 {
        acc
    } else {
        mix(fold_inputs(acc, s.drop_last()), input_hash(s.last()))
    }
}

/// Folds the hashes of a sequence of coins into an accumulator.
pub open spec fn fold_coins(acc: u64, s: Seq<Coin>) -> u64
    decreases s.len(),
{
    if s.len() == 0 {
        acc
    } else {
        mix(fold_coins(acc, s.drop_last()), coin_hash(s.last()))
    }
}

/// The content hash of a transaction: both lists, length-prefixed.
#[verifier::opaque]
pub open spec fn tx_hash(t: TransactionView) -> u64 {
    fold_coins(
        mix(fold_inputs(mix(HASH_SEED, t.inputs.len() as u64), t.inputs), t.outputs.len() as u64),
        t.outputs,
    )
}

/// The identifier of the coin created at output index `index` of the
/// transaction `t` when included at block height `block_number`.
#[verifier::opaque]
pub open spec fn output_coin_id(t: TransactionView, block_number: u64, index: u64) -> CoinId {
    CoinId(mix(mix(mix(HASH_SEED, tx_hash(t)), block_number), index))
}

impl Transaction {
    /// The identifier of this transaction, as a specification value.
    pub open spec fn id_spec(&self) -> TransactionId {
        TransactionId(tx_hash(self@))
    }

    /// Calculates the identifier of this transaction.
    pub fn id(&self) -> (r: TransactionId)
        ensures
            r == self.id_spec(),
    {
        proof {
            reveal(tx_hash);
        }
        let mut acc: u64 = mix_word(HASH_SEED, self.inputs.len() as u64);
        let mut i: usize = 0;
        while i < self.inputs.len()
            invariant
                i <= self.inputs.len(),
                acc == fold_inputs(mix(HASH_SEED, self.inputs@.len() as u64), self.inputs@.take(i as int)),
            decreases self.inputs.len() - i,
        {
            assert(self.inputs@.take(i + 1).drop_last() =~= self.inputs@.take(i as int));
            assert(self.inputs@.take(i + 1).last() == self.inputs@[i as int]);
            acc = mix_word(acc, hash_input(&self.inputs[i]));
            i = i + 1;
        }
        assert(self.inputs@.take(self.inputs@.len() as int) =~= self.inputs@);
        acc = mix_word(acc, self.outputs.len() as u64);
        let ghost start: u64 = acc;
        let mut j: usize = 0;
        while j < self.outputs.len()
            invariant
                j <= self.outputs.len(),
                acc == fold_coins(start, self.outputs@.take(j as int)),
                start == mix(fold_inputs(mix(HASH_SEED, self.inputs@.len() as u64), self.inputs@), self.outputs@.len() as u64),
            decreases self.outputs.len() - j,
        {
            assert(self.outputs@.take(j + 1).drop_last() =~= self.outputs@.take(j as int));
            assert(self.outputs@.take(j + 1).last() == self.outputs@[j as int]);
            acc = mix_word(acc, hash_coin(&self.outputs[j]));
            j = j + 1;
        }
        assert(self.outputs@.take(self.outputs@.len() as int) =~= self.outputs@);
        TransactionId(acc)
    }

    /// Calculates the identifier of the coin created by this transaction at
    /// the given output index, when included at the given block height.
    pub fn coin_id(&self, block_number: u64, output_index: usize) -> (r: CoinId)
        ensures
            r == output_coin_id(self@, block_number, output_index as u64),
    {
        proof {
            reveal(output_coin_id);
        }
        let txid = self.id();
        CoinId(mix_word(mix_word(mix_word(HASH_SEED, txid.0), block_number), output_index as u64))
    }

    /// Returns the identifiers of the coins consumed by this transaction,
    /// in input order.  The coins themselves are not part of the
    /// transaction; an auxiliary store holds them.
    pub fn iter_input_coin_ids(&self) -> (r: Vec<CoinId>)
        ensures
            r@ == self.inputs@.map_values(|i: Input| i.coin_id),
    {
        let mut out: Vec<CoinId> = Vec::new();
        let mut i: usize = 0;
        while i < self.inputs.len()
            invariant
                i <= self.inputs.len(),
                out@.len() == i,
                forall|k: int| 0 <= k < i ==> out@[k] == self.inputs@[k].coin_id,
            decreases self.inputs.len() - i,
        {
            out.push(self.inputs[i].coin_id);
            i = i + 1;
        }
        assert(out@ =~= self.inputs@.map_values(|inp: Input| inp.coin_id));
        out
    }

    /// Returns the coins created by this transaction together with their
    /// identifiers, for inclusion at the given block height.
    pub fn iter_output_coins_and_ids(&self, block_number: u64) -> (r: Vec<(CoinId, Coin)>)
        ensures
            r@.len() == self.outputs@.len(),
            forall|k: int|
                0 <= k < r@.len() ==> r@[k] == (
                    output_coin_id(self@, block_number, k as u64),
                    self.outputs@[k],
                ),
    {
        proof {
            reveal(output_coin_id);
        }
        let txid = self.id();
        let base = mix_word(mix_word(HASH_SEED, txid.0), block_number);
        let mut out: Vec<(CoinId, Coin)> = Vec::new();
        let mut i: usize = 0;
        while i < self.outputs.len()
            invariant
                i <= self.outputs.len(),
                out@.len() == i,
                base == mix(mix(HASH_SEED, tx_hash(self@)), block_number),
                forall|k: int|
                    0 <= k < i ==> out@[k] == (
                        output_coin_id(self@, block_number, k as u64),
                        self.outputs@[k],
                    ),
            decreases self.outputs.len() - i,
        {
            proof {
                reveal(output_coin_id);
            }
            let id = CoinId(mix_word(base, i as u64));
            out.push((id, self.outputs[i]));
            i = i + 1;
        }
        out
    }
}

/// Computes the content hash of an input.
pub fn hash_input(i: &Input) -> (r: u64)
    ensures
        r == input_hash(*i),
{
    mix_word(mix_word(HASH_SEED, i.coin_id.0), hash_signature(&i.signature))
}

/// Returns a transaction with the same content as `t`.
pub fn clone_tx(t: &Transaction) -> (r: Transaction)
    ensures
        r@ == t@,
{
    let mut inputs: Vec<Input> = Vec::new();
    let mut i: usize = 0;
    while i < t.inputs.len()
        invariant
            i <= t.inputs.len(),
            inputs@ =~= t.inputs@.take(i as int),
        decreases t.inputs.len() - i,
    {
        inputs.push(t.inputs[i]);
        i = i + 1;
    }
    assert(inputs@ =~= t.inputs@);
    let mut outputs: Vec<Coin> = Vec::new();
    let mut j: usize = 0;
    while j < t.outputs.len()
        invariant
            j <= t.outputs.len(),
            outputs@ =~= t.outputs@.take(j as int),
        decreases t.outputs.len() - j,
    {
        outputs.push(t.outputs[j]);
        j = j + 1;
    }
    assert(outputs@ =~= t.outputs@);
    Transaction { inputs, outputs }
}

impl Input {
    /// A dummy input, for use where the consumed coin does not matter.
    pub fn dummy() -> (r: Input)
        ensures
            r == (Input { coin_id: CoinId(2718281828459045), signature: Signature::Invalid }),
    {
        Input {
            // Decimal digits of e, as a recognizable placeholder value.
            coin_id: CoinId(2718281828459045),
            signature: Signature::Invalid,
        }
    }
}

} // verus!
