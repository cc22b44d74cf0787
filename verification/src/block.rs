//! Blocks and block identifiers.
//!
//! A block carries a link to its parent, a height one greater than its
//! parent's, and an ordered body of transactions.  A block's identifier is
//! a content hash.  Exactly one genesis block exists, fixed, with a
//! sentinel parent and height zero; it is implicitly known to every client
//! and never fetched.

use vstd::prelude::*;

use crate::hashing::HASH_SEED;
use crate::hashing::mix;
use crate::hashing::mix_word;
use crate::transaction::Transaction;
use crate::transaction::TransactionView;
use crate::transaction::clone_tx;
use crate::transaction::tx_hash;

verus! {

/// A unique identifier for a block: the hash of the block's content.
#[derive(Clone, Copy, PartialEq, Eq, Structural, Hash, Debug, PartialOrd, Ord)]
pub struct BlockId(pub u64);

/// A block in the ledger's chain.
#[derive(Clone, PartialEq, Eq, Hash, Debug, PartialOrd, Ord)]
pub struct Block {
    /// The parent block identifier, linking the chain together.
    pub parent: BlockId,
    /// The height of this block in the chain; genesis has height 0.
    pub number: u64,
    /// The list of transactions included in the block.
    pub body: Vec<Transaction>,
}

/// The mathematical content of a block.
pub struct BlockView {
    pub parent: BlockId,
    pub number: u64,
    pub body: Seq<TransactionView>,
}

impl View for Block {
    type V = BlockView;

    open spec fn view(&self) -> BlockView {
        BlockView {
            parent: self.parent,
            number: self.number,
            body: self.body@.map_values(|t: Transaction| t@),
        }
    }
}

/// Folds the hashes of a sequence of transactions into an accumulator.
pub open spec fn fold_txs(acc: u64, s: Seq<TransactionView>) -> u64
    decreases s.len(),
{
    if s.len() == 0 {
        acc
    } else {
        mix(fold_txs(acc, s.drop_last()), tx_hash(s.last()))
    }
}

/// The content hash of a block.
#[verifier::opaque]
pub open spec fn block_hash(b: BlockView) -> u64 {
    fold_txs(mix(mix(mix(HASH_SEED, b.parent.0), b.number), b.body.len() as u64), b.body)
}

/// The identifier that a block content denotes.
pub open spec fn block_view_id(b: BlockView) -> BlockId {
    BlockId(block_hash(b))
}

/// The identifier of the fixed genesis block.
pub open spec fn genesis_id() -> BlockId {
    BlockId(mix(mix(mix(HASH_SEED, 0), 0), 0))
}

/// Whether a block content is the genesis block: sentinel parent, height
/// zero, empty body.
pub open spec fn is_genesis(b: BlockView) -> bool {
    b.parent == BlockId(0) && b.number == 0 && b.body.len() == 0
}

/// The content of the fixed genesis block.
pub open spec fn genesis_view() -> BlockView {
    BlockView { parent: BlockId(0), number: 0, body: Seq::empty() }
}

impl Block {
    /// The identifier of this block, as a specification value.
    pub open spec fn id_spec(&self) -> BlockId {
        block_view_id(self@)
    }

    /// Calculates the identifier of this block.
    pub fn id(&self) -> (r: BlockId)
        ensures
            r == self.id_spec(),
    {
        proof {
            reveal(block_hash);
        }
        let mut acc: u64 = mix_word(
            mix_word(mix_word(HASH_SEED, self.parent.0), self.number),
            self.body.len() as u64,
        );
        let ghost start: u64 = acc;
        let mut i: usize = 0;
        while i < self.body.len()
            invariant
                i <= self.body.len(),
                acc == fold_txs(start, self@.body.take(i as int)),
                start == mix(mix(mix(HASH_SEED, self.parent.0), self.number), self@.body.len() as u64),
            decreases self.body.len() - i,
        {
            assert(self@.body.take(i + 1).drop_last() =~= self@.body.take(i as int));
            assert(self@.body.take(i + 1).last() == self@.body[i as int]);
            let h = self.body[i].id();
            acc = mix_word(acc, h.0);
            i = i + 1;
        }
        assert(self@.body.take(self@.body.len() as int) =~= self@.body);
        BlockId(acc)
    }

    /// Returns the genesis block, the only valid one in this ledger model.
    pub fn genesis() -> (r: Block)
        ensures
            r@ == genesis_view(),
            is_genesis(r@),
            r.id_spec() == genesis_id(),
    {
        proof {
            reveal(block_hash);
        }
        let b = Block { parent: BlockId(0), number: 0, body: Vec::new() };
        assert(b@.body =~= Seq::<TransactionView>::empty());
        b
    }
}

/// Returns a block with the same content as `b`.
pub fn clone_block(b: &Block) -> (r: Block)
    ensures
        r@ == b@,
{
    let mut body: Vec<Transaction> = Vec::new();
    let mut i: usize = 0;
    while i < b.body.len()
        invariant
            i <= b.body.len(),
            body@.len() == i,
            forall|k: int| 0 <= k < i ==> body@[k]@ == b.body@[k]@,
        decreases b.body.len() - i,
    {
        body.push(clone_tx(&b.body[i]));
        i = i + 1;
    }
    let r = Block { parent: b.parent, number: b.number, body };
    assert(r@.body =~= b@.body);
    r
}

} // verus!
