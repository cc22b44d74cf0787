//! The wallet: fork-aware incremental synchronization against a ledger
//! source, a UTXO store of tracked coins, and transaction builders.
//!
//! The wallet's state is the chain cursor `(height, block id)`, the coin
//! store, and an undo log with one entry per applied height.  The ghost
//! chain `applied` records the content of every block the wallet has
//! applied; well-formedness ties the store to an exact replay of that
//! chain, and ties each undo entry to the delta that reverses its block.
//! Synchronization unwinds to the common ancestor using the undo log and
//! replays forward, so a pass never rescans from genesis while the
//! canonical chain merely grows.

use vstd::prelude::*;

use crate::address::Address;
use crate::address::Signature;
use crate::apply::apply_block;
use crate::apply::apply_inputs;
use crate::apply::apply_outputs;
use crate::apply::apply_tx;
use crate::apply::apply_txs;
use crate::apply::lemma_replay_owners;
use crate::apply::lemma_undo_exact;
use crate::apply::replay;
use crate::apply::undo_apply;
use crate::block::Block;
use crate::block::BlockId;
use crate::block::BlockView;
use crate::block::block_view_id;
use crate::block::genesis_id;
use crate::coin::Coin;
use crate::coin::CoinId;
use crate::node::NodeEndpoint;
use crate::store::CoinStore;
use crate::store::ids_distinct;
use crate::store::map_get;
use crate::store::lemma_map_of_index;
use crate::store::owned_pairs;
use crate::store::sum_all;
use crate::store::sum_owned;
use crate::transaction::Input;
use crate::transaction::Transaction;

verus! {

/// The errors a wallet operation can return.  The first three can arise
/// while querying or while building a transaction; the last three only
/// while building one.
#[derive(Clone, Copy, PartialEq, Eq, Structural, Debug, PartialOrd, Ord)]
pub enum WalletError {
    /// The queried address is not tracked by this wallet.
    ForeignAddress,
    /// The coin is not known to this wallet: not yet synced, already
    /// spent, or owned by an untracked address.
    UnknownCoin,
    /// The operation needs a wallet-owned address and there is none.
    NoOwnedAddresses,
    /// The value required exceeds the value available to be consumed.
    InsufficientFunds,
    /// An attempt to create a coin with zero value.
    ZeroCoinValue,
    /// An attempt to create a transaction with no inputs.
    ZeroInputs,
}

/// The result type of fallible wallet operations.
pub type WalletResult<T> = Result<T, WalletError>;

/// The per-height undo record: the exact set of store mutations that
/// applying one block caused, sufficient to reverse it.
pub struct UndoEntry {
    /// The cursor's block id before the block was applied.
    pub prev: BlockId,
    /// The pairs the block left in the store that were not there before.
    pub inserted: Vec<(CoinId, Coin)>,
    /// The pairs the block removed or overwrote, with their prior values.
    pub removed: Vec<(CoinId, Coin)>,
}

/// A wallet: tracked addresses, the UTXO store derived from the applied
/// chain, the chain cursor, and the undo log.
pub struct Wallet {
    /// The addresses this wallet tracks, without duplicates.
    pub addresses: Vec<Address>,
    /// The unspent coins owned by tracked addresses, as of the cursor.
    pub coins: CoinStore,
    /// The height of the block the wallet believes canonical.
    pub best_block_height: u64,
    /// The id of the block the wallet believes canonical.
    pub best_block_hash: BlockId,
    /// One undo record per applied height, oldest first.
    pub undo_log: Vec<UndoEntry>,
    /// The content of every applied block, oldest first.
    pub applied: Ghost<Seq<BlockView>>,
}

impl Wallet {
    /// The set of addresses this wallet tracks.
    pub open spec fn tracked_set(&self) -> Set<Address> {
        self.addresses@.to_set()
    }

    /// The id that precedes position `i` of the applied chain.
    pub open spec fn prev_id(&self, i: int) -> BlockId {
        if i == 0 {
            genesis_id()
        } else {
            block_view_id(self.applied@[i - 1])
        }
    }

    /// The id of the last applied block, or genesis with none applied.
    pub open spec fn tip_id(&self) -> BlockId {
        self.prev_id(self.applied@.len() as int)
    }

    /// The total value owned by `a`, over the store's entries.
    pub open spec fn balance_of(&self, a: Address) -> int {
        sum_owned(self.coins.entries@, a)
    }

    /// The total value of all coins in the store.
    pub open spec fn worth(&self) -> int {
        sum_all(self.coins.entries@)
    }

    /// The applied chain is parent-linked from genesis, and each undo
    /// record carries the cursor id that preceded its block.
    #[verifier::opaque]
    pub open spec fn chain_linked(&self) -> bool {
        &&& forall|i: int|
            0 <= i < self.applied@.len() ==> (#[trigger] self.applied@[i]).parent == self.prev_id(i)
        &&& forall|i: int|
            0 <= i < self.undo_log@.len() ==> (#[trigger] self.undo_log@[i]).prev == self.prev_id(i)
    }

    /// Each undo record reverses its block's application exactly: undoing
    /// it on the replay of the chain through its height yields the replay
    /// of the chain below it.
    #[verifier::opaque]
    pub open spec fn undo_coherent(&self) -> bool {
        forall|i: int|
            0 <= i < self.undo_log@.len() ==> ids_distinct((#[trigger] self.undo_log@[i]).inserted@)
                && ids_distinct(self.undo_log@[i].removed@)
                && undo_apply(
                replay(self.tracked_set(), self.applied@.take(i + 1)),
                self.undo_log@[i].inserted@,
                self.undo_log@[i].removed@,
            ) == replay(self.tracked_set(), self.applied@.take(i))
    }

    /// Well-formedness: the store is exactly the replay of the applied
    /// chain, the chain is parent-linked from genesis, the cursor sits on
    /// its tip, and each undo entry reverses its block exactly.
    pub open spec fn wf(&self) -> bool {
        &&& self.coins.wf()
        &&& self.applied@.len() == self.best_block_height as int
        &&& self.undo_log@.len() == self.best_block_height as int
        &&& self.coins@ == replay(self.tracked_set(), self.applied@)
        &&& self.chain_linked()
        &&& self.best_block_hash == self.tip_id()
        &&& self.undo_coherent()
    }

    /// Creates a wallet that tracks the given addresses, positioned at
    /// genesis with an empty store.
    pub fn new(addresses: Vec<Address>) -> (r: Wallet)
        ensures
            r.wf(),
            r.tracked_set() == addresses@.to_set(),
            forall|i: int, j: int|
                0 <= i < j < r.addresses@.len() ==> r.addresses@[i] != r.addresses@[j],
            r.best_block_height == 0,
            r.best_block_hash == genesis_id(),
            r.coins@ == Map::<CoinId, Coin>::empty(),
            r.coins.entries@.len() == 0,
            r.applied@ == Seq::<BlockView>::empty(),
            addresses@.len() > 0 ==> r.addresses@.len() > 0,
            forall|i: int| 0 <= i < r.addresses@.len() ==> addresses@.contains(#[trigger] r.addresses@[i]),
            addresses@.len() > 0 ==> r.addresses@[0] == addresses@[0],
    {
        let mut owned: Vec<Address> = Vec::new();
        let mut i: usize = 0;
        while i < addresses.len()
            invariant
                i <= addresses@.len(),
                forall|p: int, q: int| 0 <= p < q < owned@.len() ==> owned@[p] != owned@[q],
                forall|p: int| 0 <= p < owned@.len() ==> addresses@.take(i as int).contains(#[trigger] owned@[p]),
                forall|p: int| 0 <= p < i ==> owned@.contains(#[trigger] addresses@[p]),
                i > 0 ==> owned@.len() > 0 && owned@[0] == addresses@[0],
            decreases addresses@.len() - i,
        {
            let a = addresses[i];
            if !contains_address(&owned, &a) {
                let ghost prev = owned@;
                owned.push(a);
                proof {
                    assert(owned@.last() == a);
                    assert forall|p: int|
                        0 <= p < owned@.len() implies addresses@.take(i + 1).contains(
                        #[trigger] owned@[p],
                    ) by {
                        if p < prev.len() {
                            let q = choose|q: int|
                                0 <= q < i && addresses@.take(i as int)[q] == prev[p];
                            assert(addresses@.take(i + 1)[q] == owned@[p]);
                        } else {
                            assert(addresses@.take(i + 1)[i as int] == a);
                        }
                    }
                    assert forall|p: int|
                        0 <= p <= i implies owned@.contains(#[trigger] addresses@[p]) by {
                        if p < i {
                            let q = choose|q: int| 0 <= q < prev.len() && prev[q] == addresses@[p];
                            assert(owned@[q] == addresses@[p]);
                        } else {
                            assert(owned@[owned@.len() - 1] == addresses@[p]);
                        }
                    }
                }
            } else {
                proof {
                    assert forall|p: int|
                        0 <= p < owned@.len() implies addresses@.take(i + 1).contains(
                        #[trigger] owned@[p],
                    ) by {
                        let q = choose|q: int| 0 <= q < i && addresses@.take(i as int)[q] == owned@[p];
                        assert(addresses@.take(i + 1)[q] == owned@[p]);
                    }
                }
            }
            i = i + 1;
        }
        let r = Wallet {
            addresses: owned,
            coins: CoinStore::new(),
            best_block_height: 0,
            best_block_hash: Block::genesis().id(),
            undo_log: Vec::new(),
            applied: Ghost(Seq::empty()),
        };
        proof {
            reveal(Wallet::chain_linked);
            reveal(Wallet::undo_coherent);
            assert(addresses@.take(addresses@.len() as int) =~= addresses@);
            assert forall|a: Address| r.addresses@.contains(a) implies addresses@.contains(a) by {
                let p = choose|p: int| 0 <= p < r.addresses@.len() && r.addresses@[p] == a;
                assert(addresses@.take(addresses@.len() as int).contains(a));
            }
            assert(r.tracked_set() =~= addresses@.to_set());
            assert(r.coins@ == replay(r.tracked_set(), r.applied@));
        }
        r
    }

    /// The height of the best block the wallet is aware of.
    pub fn best_height(&self) -> (r: u64)
        ensures
            r == self.best_block_height,
    {
        self.best_block_height
    }

    /// The id of the best block the wallet is aware of.
    pub fn best_hash(&self) -> (r: BlockId)
        ensures
            r == self.best_block_hash,
    {
        self.best_block_hash
    }

    /// The total value owned by `address`, or `ForeignAddress` where the
    /// wallet does not track it.
    pub fn total_assets_of(&self, address: Address) -> (r: WalletResult<u64>)
        requires
            self.tracked_set().contains(address) ==> self.balance_of(address) <= u64::MAX,
        ensures
            self.tracked_set().contains(address) ==> r == Ok::<u64, WalletError>(
                self.balance_of(address) as u64,
            ),
            !self.tracked_set().contains(address) ==> r == Err::<u64, WalletError>(
                WalletError::ForeignAddress,
            ),
    {
        if !contains_address(&self.addresses, &address) {
            return Err(WalletError::ForeignAddress);
        }
        Ok(self.coins.sum_owned_of(&address))
    }

    /// The total value of all coins in the wallet's store.  Only tracked
    /// coins are ever in the store, so untracked owners never count.
    pub fn net_worth(&self) -> (r: u64)
        requires
            self.worth() <= u64::MAX,
        ensures
            r as int == self.worth(),
    {
        self.coins.sum_total()
    }

    /// All coins owned by `address`, with their values, or
    /// `ForeignAddress` where the wallet does not track it.
    pub fn all_coins_of(&self, address: Address) -> (r: WalletResult<Vec<(CoinId, u64)>>)
        ensures
            self.tracked_set().contains(address) ==> (match r {
                Ok(v) => v@ == owned_pairs(self.coins.entries@, address),
                Err(_) => false,
            }),
            !self.tracked_set().contains(address) ==> r == Err::<Vec<(CoinId, u64)>, WalletError>(
                WalletError::ForeignAddress,
            ),
    {
        if !contains_address(&self.addresses, &address) {
            return Err(WalletError::ForeignAddress);
        }
        Ok(self.coins.collect_owned(&address))
    }

    /// What `create_automatic_transaction` promises of a successful
    /// result: a prefix of the store's entries is consumed, just long
    /// enough for its total to reach the required amount; one output pays
    /// the recipient, and a second returns any surplus to the wallet's
    /// first tracked address.  The tip is never an output: it is the
    /// difference between what is consumed and what is created.
    pub open spec fn auto_result_at(
        &self,
        recipient: Address,
        payment: u64,
        tip: u64,
        t: crate::transaction::TransactionView,
        k: int,
    ) -> bool {
        let s = self.coins.entries@;
        let needed = payment + tip;
        &&& 0 <= k <= s.len()
        &&& forall|j: int| 0 <= j < k ==> sum_all(s.take(j)) < needed
        &&& sum_all(s.take(k)) >= needed
        &&& t.inputs.len() == k
        &&& forall|j: int|
            0 <= j < k ==> (#[trigger] t.inputs[j]).coin_id == s[j].0 && t.inputs[j].signature
                == Signature::Valid(s[j].1.owner)
        &&& t.outputs == (if sum_all(s.take(k)) == needed {
            seq![(Coin { value: payment, owner: recipient })]
        } else {
            seq![
                (Coin { value: payment, owner: recipient }),
                (Coin {
                    value: (sum_all(s.take(k)) - needed) as u64,
                    owner: self.addresses@[0],
                }),
            ]
        })
    }

    /// A successful automatic transaction consumes some greedy prefix of
    /// the store as `auto_result_at` describes.
    pub open spec fn auto_result(
        &self,
        recipient: Address,
        payment: u64,
        tip: u64,
        t: crate::transaction::TransactionView,
    ) -> bool {
        exists|k: int| self.auto_result_at(recipient, payment, tip, t, k)
    }

    /// Constructs a transaction consuming exactly the given coins and
    /// creating exactly the given outputs, in order.  Fails with
    /// `ZeroInputs` on an empty input list, `UnknownCoin` where any input
    /// is absent from the store, and `ZeroCoinValue` where any output has
    /// value zero.  The store is not mutated: the caller submits the
    /// transaction to the ledger and re-syncs.
    #[verifier::loop_isolation(false)]
    pub fn create_manual_transaction(
        &self,
        input_coin_ids: Vec<CoinId>,
        output_coins: Vec<Coin>,
    ) -> (r: WalletResult<Transaction>)
        requires
            self.wf(),
        ensures
            input_coin_ids@.len() == 0 ==> r == Err::<Transaction, WalletError>(
                WalletError::ZeroInputs,
            ),
            input_coin_ids@.len() > 0 && (exists|k: int|
                0 <= k < input_coin_ids@.len() && !self.coins@.contains_key(
                    #[trigger] input_coin_ids@[k],
                )) ==> r == Err::<Transaction, WalletError>(WalletError::UnknownCoin),
            input_coin_ids@.len() > 0 && (forall|k: int|
                0 <= k < input_coin_ids@.len() ==> self.coins@.contains_key(
                    #[trigger] input_coin_ids@[k],
                )) && (exists|k: int|
                0 <= k < output_coins@.len() && (#[trigger] output_coins@[k]).value == 0) ==> r
                == Err::<Transaction, WalletError>(WalletError::ZeroCoinValue),
            input_coin_ids@.len() > 0 && (forall|k: int|
                0 <= k < input_coin_ids@.len() ==> self.coins@.contains_key(
                    #[trigger] input_coin_ids@[k],
                )) && (forall|k: int|
                0 <= k < output_coins@.len() ==> (#[trigger] output_coins@[k]).value != 0) ==> (
            match r {
                Ok(t) => t@.outputs == output_coins@ && t@.inputs.len() == input_coin_ids@.len()
                    && forall|k: int|
                    0 <= k < input_coin_ids@.len() ==> (#[trigger] t@.inputs[k]).coin_id
                        == input_coin_ids@[k] && t@.inputs[k].signature == Signature::Valid(
                        self.addresses@[0],
                    ),
                Err(_) => false,
            }),
    {
        if input_coin_ids.len() == 0 {
            return Err(WalletError::ZeroInputs);
        }
        let mut i: usize = 0;
        while i < input_coin_ids.len()
            invariant
                self.wf(),
                i <= input_coin_ids@.len(),
                forall|k: int|
                    0 <= k < i ==> self.coins@.contains_key(#[trigger] input_coin_ids@[k]),
            decreases input_coin_ids@.len() - i,
        {
            match self.coins.get(input_coin_ids[i]) {
                Some(_) => {},
                None => {
                    return Err(WalletError::UnknownCoin);
                },
            }
            i = i + 1;
        }
        let mut j: usize = 0;
        while j < output_coins.len()
            invariant
                j <= output_coins@.len(),
                forall|k: int| 0 <= k < j ==> (#[trigger] output_coins@[k]).value != 0,
            decreases output_coins@.len() - j,
        {
            if output_coins[j].value == 0 {
                return Err(WalletError::ZeroCoinValue);
            }
            j = j + 1;
        }
        proof {
            self.lemma_tracked_nonempty_of_coin(input_coin_ids@[0]);
        }
        let signer = self.addresses[0];
        let mut inputs: Vec<Input> = Vec::new();
        let mut k: usize = 0;
        while k < input_coin_ids.len()
            invariant
                k <= input_coin_ids@.len(),
                inputs@.len() == k,
                forall|p: int|
                    0 <= p < k ==> (#[trigger] inputs@[p]).coin_id == input_coin_ids@[p]
                        && inputs@[p].signature == Signature::Valid(signer),
                signer == self.addresses@[0],
            decreases input_coin_ids@.len() - k,
        {
            inputs.push(Input { coin_id: input_coin_ids[k], signature: Signature::Valid(signer) });
            k = k + 1;
        }
        Ok(Transaction { inputs, outputs: output_coins })
    }

    /// A coin held in a well-formed wallet is owned by a tracked address,
    /// so the address list cannot be empty.
    proof fn lemma_tracked_nonempty_of_coin(&self, id: CoinId)
        requires
            self.wf(),
            self.coins@.contains_key(id),
        ensures
            self.addresses@.len() > 0,
            self.tracked_set().contains(self.coins@[id].owner),
    {
        lemma_replay_owners(self.tracked_set(), self.applied@);
        assert(self.tracked_set().contains(self.coins@[id].owner));
        assert(self.addresses@.contains(self.coins@[id].owner));
    }

    /// Constructs a transaction that pays `payment_amount` to `recipient`,
    /// burns `burn_aka_tip`, and returns any surplus to a wallet-owned
    /// address.  Coins are selected in the store's own deterministic
    /// order, just until the required total is reached.  Fails with
    /// `ZeroCoinValue` on a zero payment, and with `InsufficientFunds`
    /// where the store's whole value is short of payment plus tip.
    #[verifier::loop_isolation(false)]
    pub fn create_automatic_transaction(
        &self,
        recipient: Address,
        payment_amount: u64,
        burn_aka_tip: u64,
    ) -> (r: WalletResult<Transaction>)
        requires
            self.wf(),
            payment_amount + burn_aka_tip <= u64::MAX,
        ensures
            payment_amount == 0 ==> r == Err::<Transaction, WalletError>(WalletError::ZeroCoinValue),
            payment_amount > 0 && self.worth() < payment_amount + burn_aka_tip ==> r == Err::<
                Transaction,
                WalletError,
            >(WalletError::InsufficientFunds),
            payment_amount > 0 && self.worth() >= payment_amount + burn_aka_tip ==> (match r {
                Ok(t) => self.auto_result(recipient, payment_amount, burn_aka_tip, t@),
                Err(_) => false,
            }),
    {
        if payment_amount == 0 {
            return Err(WalletError::ZeroCoinValue);
        }
        let needed: u64 = payment_amount + burn_aka_tip;
        let s = &self.coins.entries;
        let mut acc: u128 = 0;
        let mut i: usize = 0;
        while i < s.len() && acc < needed as u128
            invariant
                i <= s@.len(),
                acc == sum_all(s@.take(i as int)),
                forall|j: int| 0 <= j < i ==> sum_all(s@.take(j)) < needed,
                s == &self.coins.entries,
            decreases s@.len() - i,
        {
            assert(s@.take(i + 1).drop_last() =~= s@.take(i as int));
            assert(s@.take(i + 1).last() == s@[i as int]);
            acc = acc + s[i].1.value as u128;
            i = i + 1;
        }
        if acc < needed as u128 {
            proof {
                assert(s@.take(i as int) =~= s@);
            }
            return Err(WalletError::InsufficientFunds);
        }
        proof {
            crate::store::lemma_sums_prefix(s@, i as int, recipient);
        }
        let mut inputs: Vec<Input> = Vec::new();
        let mut p: usize = 0;
        while p < i
            invariant
                p <= i,
                i <= s@.len(),
                inputs@.len() == p,
                forall|j: int|
                    0 <= j < p ==> (#[trigger] inputs@[j]).coin_id == s@[j].0
                        && inputs@[j].signature == Signature::Valid(s@[j].1.owner),
                s == &self.coins.entries,
            decreases i - p,
        {
            inputs.push(Input { coin_id: s[p].0, signature: Signature::Valid(s[p].1.owner) });
            p = p + 1;
        }
        let change: u128 = acc - needed as u128;
        proof {
            assert(i >= 1) by {
                assert(sum_all(s@.take(0)) == 0);
            }
            assert(s@.take(i as int).drop_last() =~= s@.take(i - 1));
            assert(sum_all(s@.take(i as int)) == sum_all(s@.take(i - 1)) + s@[i - 1].1.value);
            assert(change < 0x1_0000_0000_0000_0000u128);
        }
        let mut outputs: Vec<Coin> = Vec::new();
        outputs.push(Coin { value: payment_amount, owner: recipient });
        if change > 0 {
            proof {
                lemma_map_of_index(self.coins.entries@, 0);
                self.lemma_tracked_nonempty_of_coin(self.coins.entries@[0].0);
            }
            let change_address = self.addresses[0];
            outputs.push(Coin { value: change as u64, owner: change_address });
        }
        let t = Transaction { inputs, outputs };
        proof {
            if change > 0 {
                assert(t@.outputs =~= seq![
                    (Coin { value: payment_amount, owner: recipient }),
                    (Coin {
                        value: (sum_all(s@.take(i as int)) - (payment_amount + burn_aka_tip)) as u64,
                        owner: self.addresses@[0],
                    }),
                ]);
            } else {
                assert(t@.outputs =~= seq![(Coin { value: payment_amount, owner: recipient })]);
            }
            assert(self.auto_result_at(recipient, payment_amount, burn_aka_tip, t@, i as int));
            assert(self.auto_result(recipient, payment_amount, burn_aka_tip, t@));
        }
        Ok(t)
    }

    /// The owner and value of a specific coin, or `UnknownCoin` where the
    /// wallet's store does not hold it.
    pub fn coin_details(&self, coin_id: &CoinId) -> (r: WalletResult<Coin>)
        requires
            self.coins.wf(),
        ensures
            r == match map_get(self.coins@, *coin_id) {
                Some(c) => Ok::<Coin, WalletError>(c),
                None => Err::<Coin, WalletError>(WalletError::UnknownCoin),
            },
    {
        match self.coins.get(*coin_id) {
            Some(c) => Ok(c),
            None => Err(WalletError::UnknownCoin),
        }
    }
}

/// The block the synchronizer would apply at height `h` on a cursor whose
/// tip is `parent`: the canonical block at `h`, provided its content is
/// fetchable, matches the reported id, and links to `parent`.  `None`
/// halts the pass; partial progress is retained.
pub open spec fn fetch_ok<N: NodeEndpoint>(n: &N, h: u64, parent: BlockId) -> Option<BlockView> {
    match n.best_at(h) {
        Option::Some(id) => match n.block_of(id) {
            Option::Some(b) => if block_view_id(b) == id && b.parent == parent {
                Option::Some(b)
            } else {
                Option::None
            },
            Option::None => Option::None,
        },
        Option::None => Option::None,
    }
}

/// Whether a synchronization pass on `w` could apply one more block.
pub open spec fn can_extend<N: NodeEndpoint>(n: &N, w: Wallet) -> bool {
    w.best_block_height < u64::MAX && fetch_ok(
        n,
        (w.best_block_height + 1) as u64,
        w.best_block_hash,
    ) is Some
}

/// Whether the wallet's cursor sits on the node's canonical chain (or at
/// genesis, which never mismatches).
pub open spec fn cursor_canonical<N: NodeEndpoint>(n: &N, w: Wallet) -> bool {
    w.best_block_height == 0 || n.best_at(w.best_block_height) == Some(w.best_block_hash)
}

/// Convergence: the cursor is canonical and no further block can be
/// applied.  A pass on a converged wallet changes nothing.
pub open spec fn synced_with<N: NodeEndpoint>(n: &N, w: Wallet) -> bool {
    cursor_canonical(n, w) && !can_extend(n, w)
}

/// One synchronization pass, described exactly: some prefix of length `k`
/// of the previously applied chain is retained, every height above `k`
/// was seen to mismatch the canonical chain, height `k` (if any) was seen
/// to match, and every newly applied block was fetched canonical, content
/// checked, and parent-linked.
pub open spec fn sync_steps<N: NodeEndpoint>(n: &N, pre: Wallet, post: Wallet, k: int) -> bool {
    &&& 0 <= k <= pre.applied@.len()
    &&& k <= post.applied@.len()
    &&& post.applied@.take(k) == pre.applied@.take(k)
    &&& post.undo_log@.take(k) == pre.undo_log@.take(k)
    &&& forall|j: int|
        k < j <= pre.applied@.len() ==> n.best_at(j as u64) != Some(
            block_view_id(#[trigger] pre.applied@[j - 1]),
        )
    &&& (k == 0 || n.best_at(k as u64) == Some(block_view_id(pre.applied@[k - 1])))
    &&& forall|i: int|
        k <= i < post.applied@.len() ==> fetch_ok(n, (i + 1) as u64, post.prev_id(i)) == Some(
            #[trigger] post.applied@[i],
        )
}

/// The full contract of one `sync` call against node `n`.
pub open spec fn sync_post<N: NodeEndpoint>(n: &N, pre: Wallet, post: Wallet) -> bool {
    &&& post.wf()
    &&& post.addresses@ == pre.addresses@
    &&& synced_with(n, post)
    &&& exists|k: int| sync_steps(n, pre, post, k)
    &&& (synced_with(n, pre) ==> post == pre)
}

impl Wallet {
    /// Whether the cursor currently matches the node's canonical report.
    fn probe_cursor<N: NodeEndpoint>(&self, node: &N) -> (r: bool)
        ensures
            r == cursor_canonical(node, *self),
    {
        if self.best_block_height == 0 {
            return true;
        }
        match node.best_block_at_height(self.best_block_height) {
            Some(id) => id == self.best_block_hash,
            None => false,
        }
    }

    /// Reverses the most recently applied block using its undo record and
    /// steps the cursor back to the popped block's recorded predecessor.
    fn rollback_one(&mut self)
        requires
            old(self).wf(),
            old(self).best_block_height > 0,
        ensures
            final(self).wf(),
            final(self).addresses == old(self).addresses,
            final(self).best_block_height == old(self).best_block_height - 1,
            final(self).applied@ == old(self).applied@.drop_last(),
            final(self).undo_log@ == old(self).undo_log@.drop_last(),
    {
        let ghost h = old(self).best_block_height as int;
        let e = match self.undo_log.pop() {
            Some(e) => e,
            None => unreached(),
        };
        self.coins.apply_undo(&e.inserted, &e.removed);
        self.best_block_height = self.best_block_height - 1;
        self.best_block_hash = e.prev;
        proof {
            self.applied@ = old(self).applied@.drop_last();
        }
        proof {
            reveal(Wallet::chain_linked);
            reveal(Wallet::undo_coherent);
            let tr = self.tracked_set();
            let oldA = old(self).applied@;
            assert(oldA.take(h) =~= oldA);
            assert(oldA.take(h - 1) =~= oldA.drop_last());
            assert(self.coins@ == undo_apply(
                replay(tr, oldA.take(h)),
                e.inserted@,
                e.removed@,
            ));
            assert(self.coins@ == replay(tr, self.applied@));
            assert forall|i: int|
                0 <= i < self.undo_log@.len() implies ids_distinct(
                (#[trigger] self.undo_log@[i]).inserted@,
            ) && ids_distinct(self.undo_log@[i].removed@) && undo_apply(
                replay(tr, self.applied@.take(i + 1)),
                self.undo_log@[i].inserted@,
                self.undo_log@[i].removed@,
            ) == replay(tr, self.applied@.take(i)) by {
                assert(self.undo_log@[i] == old(self).undo_log@[i]);
                assert(self.applied@.take(i + 1) =~= oldA.take(i + 1));
                assert(self.applied@.take(i) =~= oldA.take(i));
            }
            assert forall|i: int|
                0 <= i < self.applied@.len() implies (#[trigger] self.applied@[i]).parent
                == self.prev_id(i) by {
                assert(self.applied@[i] == oldA[i]);
                assert(self.prev_id(i) == old(self).prev_id(i));
            }
            assert forall|i: int|
                0 <= i < self.undo_log@.len() implies (#[trigger] self.undo_log@[i]).prev
                == self.prev_id(i) by {
                assert(self.undo_log@[i] == old(self).undo_log@[i]);
                assert(self.prev_id(i) == old(self).prev_id(i));
            }
            assert(e.prev == old(self).undo_log@[h - 1].prev);
            assert(self.best_block_hash == self.tip_id());
        }
    }

    /// Applies the canonical block at the next height, if one is
    /// available, content-consistent, and linked to the cursor; records
    /// its undo delta.  Returns whether the cursor advanced.
    #[verifier::loop_isolation(false)]
    #[verifier::rlimit(50)]
    fn try_advance<N: NodeEndpoint>(&mut self, node: &N) -> (advanced: bool)
        requires
            old(self).wf(),
        ensures
            final(self).wf(),
            final(self).addresses == old(self).addresses,
            advanced ==> old(self).best_block_height < u64::MAX && final(self).best_block_height
                == old(self).best_block_height + 1 && final(self).applied@.len()
                == old(self).applied@.len() + 1 && final(self).applied@.drop_last()
                == old(self).applied@ && final(self).undo_log@.drop_last() == old(self).undo_log@
                && fetch_ok(
                node,
                final(self).best_block_height,
                old(self).best_block_hash,
            ) == Some(final(self).applied@.last()),
            !advanced ==> *final(self) == *old(self) && !can_extend(node, *old(self)),
    {
        if self.best_block_height == u64::MAX {
            return false;
        }
        let h = self.best_block_height + 1;
        let id = match node.best_block_at_height(h) {
            Some(id) => id,
            None => {
                return false;
            },
        };
        let block = match node.entire_block(&id) {
            Some(b) => b,
            None => {
                return false;
            },
        };
        let bid = block.id();
        if !(bid == id) {
            // The served content does not hash to the reported id: treat
            // the block as unavailable and halt the pass.
            return false;
        }
        if !(block.parent == self.best_block_hash) {
            // The reported block does not link to our tip: treat it as
            // unavailable rather than corrupt the store.
            return false;
        }
        let ghost tr = self.tracked_set();
        let ghost oldA = self.applied@;
        let before = self.coins.duplicate();
        apply_block_to_store(&mut self.coins, &self.addresses, &block, h);
        let removed = before.changed_from(&self.coins);
        let inserted = self.coins.changed_from(&before);
        let prev_hash = self.best_block_hash;
        self.undo_log.push(UndoEntry { prev: prev_hash, inserted, removed });
        proof {
            self.applied@ = oldA.push(block@);
        }
        self.best_block_height = h;
        self.best_block_hash = id;
        proof {
            reveal(Wallet::chain_linked);
            reveal(Wallet::undo_coherent);
            let bv = block@;
            assert(fetch_ok(node, h, prev_hash) == Some(bv));
            assert(self.applied@.drop_last() =~= oldA);
            assert(self.undo_log@.drop_last() =~= old(self).undo_log@);
            lemma_undo_exact(before@, self.coins@, inserted@, removed@);
            assert(replay(tr, self.applied@) == apply_block(
                replay(tr, oldA),
                tr,
                bv,
                self.applied@.len() as u64,
            ));
            assert(self.coins@ == replay(tr, self.applied@));
            assert forall|i: int|
                0 <= i < self.applied@.len() implies (#[trigger] self.applied@[i]).parent
                == self.prev_id(i) by {
                if i < oldA.len() {
                    assert(self.applied@[i] == oldA[i]);
                    assert(self.prev_id(i) == old(self).prev_id(i));
                } else {
                    assert(self.applied@[i] == bv);
                    assert(bv.parent == old(self).tip_id());
                }
            }
            assert forall|i: int|
                0 <= i < self.undo_log@.len() implies (#[trigger] self.undo_log@[i]).prev
                == self.prev_id(i) by {
                if i < old(self).undo_log@.len() {
                    assert(self.undo_log@[i] == old(self).undo_log@[i]);
                    assert(self.prev_id(i) == old(self).prev_id(i));
                } else {
                    assert(self.undo_log@[i].prev == prev_hash);
                    assert(prev_hash == old(self).tip_id());
                }
            }
            assert(block_view_id(bv) == id);
            assert(self.best_block_hash == self.tip_id());
            assert forall|i: int|
                0 <= i < self.undo_log@.len() implies ids_distinct(
                (#[trigger] self.undo_log@[i]).inserted@,
            ) && ids_distinct(self.undo_log@[i].removed@) && undo_apply(
                replay(tr, self.applied@.take(i + 1)),
                self.undo_log@[i].inserted@,
                self.undo_log@[i].removed@,
            ) == replay(tr, self.applied@.take(i)) by {
                if i < old(self).undo_log@.len() {
                    assert(self.undo_log@[i] == old(self).undo_log@[i]);
                    assert(self.applied@.take(i + 1) =~= oldA.take(i + 1));
                    assert(self.applied@.take(i) =~= oldA.take(i));
                } else {
                    assert(self.applied@.take(i + 1) =~= self.applied@);
                    assert(self.applied@.take(i) =~= oldA);
                    assert(before@ == replay(tr, oldA));
                }
            }
            assert(self.wf());
        }
        true
    }

    /// Synchronizes the wallet with the node, which it fully trusts.
    ///
    /// First the rollback phase pops undo records while the cursor height
    /// mismatches the canonical chain; then the rollforward phase fetches
    /// and applies canonical blocks until none is available.  A fetch
    /// failure silently halts the pass with all prior progress retained;
    /// a later call resumes.  Calling `sync` on a converged wallet
    /// changes nothing, and a pass never rescans below the fork point.
    #[verifier::rlimit(100)]
    pub fn sync<Node: NodeEndpoint>(&mut self, node: &Node)
        requires
            old(self).wf(),
        ensures
            sync_post(node, *old(self), *final(self)),
    {
        proof {
            assert(old(self).applied@.take(old(self).best_block_height as int) =~= old(
                self,
            ).applied@);
            assert(old(self).undo_log@.take(old(self).best_block_height as int) =~= old(
                self,
            ).undo_log@);
        }
        while !self.probe_cursor(node)
            invariant
                old(self).wf(),
                self.wf(),
                self.addresses == old(self).addresses,
                self.best_block_height <= old(self).best_block_height,
                self.applied@ == old(self).applied@.take(self.best_block_height as int),
                self.undo_log@ == old(self).undo_log@.take(self.best_block_height as int),
                forall|j: int|
                    self.best_block_height < j <= old(self).best_block_height ==> node.best_at(
                        j as u64,
                    ) != Some(block_view_id(#[trigger] old(self).applied@[j - 1])),
                cursor_canonical(node, *old(self)) ==> *self == *old(self),
            decreases self.best_block_height,
        {
            let ghost prev_w = *self;
            self.rollback_one();
            proof {
                lemma_rollback_maintains(node, *old(self), prev_w, *self);
            }
        }
        let ghost k = self.best_block_height as int;
        proof {
            assert(cursor_canonical(node, *self));
            assert(k == 0 || node.best_at(k as u64) == Some(
                block_view_id(old(self).applied@[k - 1]),
            ));
        }
        loop
            invariant
                old(self).wf(),
                self.wf(),
                self.addresses == old(self).addresses,
                0 <= k <= old(self).applied@.len(),
                k == 0 || node.best_at(k as u64) == Some(
                    block_view_id(old(self).applied@[k - 1]),
                ),
                forall|j: int|
                    k < j <= old(self).best_block_height ==> node.best_at(j as u64) != Some(
                        block_view_id(#[trigger] old(self).applied@[j - 1]),
                    ),
                k <= self.best_block_height as int,
                self.applied@.take(k) == old(self).applied@.take(k),
                self.undo_log@.take(k) == old(self).undo_log@.take(k),
                cursor_canonical(node, *self),
                forall|i: int|
                    k <= i < self.applied@.len() ==> fetch_ok(
                        node,
                        (i + 1) as u64,
                        self.prev_id(i),
                    ) == Some(#[trigger] self.applied@[i]),
                synced_with(node, *old(self)) ==> *self == *old(self),
            ensures
                self.wf(),
                self.addresses == old(self).addresses,
                k <= self.best_block_height as int,
                self.applied@.take(k) == old(self).applied@.take(k),
                self.undo_log@.take(k) == old(self).undo_log@.take(k),
                cursor_canonical(node, *self),
                !can_extend(node, *self),
                forall|i: int|
                    k <= i < self.applied@.len() ==> fetch_ok(
                        node,
                        (i + 1) as u64,
                        self.prev_id(i),
                    ) == Some(#[trigger] self.applied@[i]),
                synced_with(node, *old(self)) ==> *self == *old(self),
            decreases u64::MAX - self.best_block_height,
        {
            let ghost prev_w = *self;
            if !self.try_advance(node) {
                break;
            }
            proof {
                lemma_advance_prefix(prev_w, *self, k);
                lemma_advance_fetch(node, prev_w, *self, k);
                lemma_advance_cursor(node, prev_w.best_block_hash, *self);
            }
        }
        proof {
            assert(sync_steps(node, *old(self), *self, k));
            assert(synced_with(node, *self));
        }
    }
}

/// One rollback step preserves the rollback invariants: the remaining
/// chain is still a prefix of the one held before the pass, and the popped height was
/// seen to mismatch the canonical chain.
proof fn lemma_rollback_maintains<N: NodeEndpoint>(n: &N, pre: Wallet, prev_w: Wallet, cur_w: Wallet)
    requires
        pre.applied@.len() == pre.best_block_height as int,
        pre.undo_log@.len() == pre.best_block_height as int,
        prev_w.applied@.len() == prev_w.best_block_height as int,
        prev_w.best_block_hash == prev_w.tip_id(),
        prev_w.best_block_height <= pre.best_block_height,
        prev_w.applied@ == pre.applied@.take(prev_w.best_block_height as int),
        prev_w.undo_log@ == pre.undo_log@.take(prev_w.best_block_height as int),
        !cursor_canonical(n, prev_w),
        cur_w.applied@ == prev_w.applied@.drop_last(),
        cur_w.undo_log@ == prev_w.undo_log@.drop_last(),
        cur_w.best_block_height == prev_w.best_block_height - 1,
    ensures
        cur_w.applied@ == pre.applied@.take(cur_w.best_block_height as int),
        cur_w.undo_log@ == pre.undo_log@.take(cur_w.best_block_height as int),
        n.best_at(prev_w.best_block_height) != Some(
            block_view_id(pre.applied@[prev_w.best_block_height as int - 1]),
        ),
{
    let h = prev_w.best_block_height as int;
    assert(h > 0);
    assert(cur_w.applied@ =~= pre.applied@.take(h - 1));
    assert(cur_w.undo_log@ =~= pre.undo_log@.take(h - 1));
    assert(prev_w.applied@[h - 1] == pre.applied@[h - 1]);
    assert(prev_w.best_block_hash == prev_w.tip_id());
    assert(prev_w.tip_id() == block_view_id(prev_w.applied@[h - 1]));
}

/// One successful advance step leaves the retained prefix untouched.
proof fn lemma_advance_prefix(prev_w: Wallet, cur_w: Wallet, k: int)
    requires
        0 <= k <= prev_w.applied@.len(),
        cur_w.applied@.len() == prev_w.applied@.len() + 1,
        cur_w.applied@.drop_last() == prev_w.applied@,
        cur_w.undo_log@.drop_last() == prev_w.undo_log@,
        prev_w.undo_log@.len() == prev_w.applied@.len(),
        cur_w.undo_log@.len() == cur_w.applied@.len(),
    ensures
        cur_w.applied@.take(k) == prev_w.applied@.take(k),
        cur_w.undo_log@.take(k) == prev_w.undo_log@.take(k),
{
    assert(cur_w.applied@.take(k) =~= prev_w.applied@.take(k));
    assert(cur_w.undo_log@.take(k) =~= prev_w.undo_log@.take(k));
}

/// After one advance, every block from the fork point on was fetched
/// canonical, content-checked, and parent-linked.
proof fn lemma_advance_fetch<N: NodeEndpoint>(n: &N, prev_w: Wallet, cur_w: Wallet, k: int)
    requires
        prev_w.best_block_hash == prev_w.tip_id(),
        0 <= k <= prev_w.applied@.len(),
        cur_w.applied@.len() == prev_w.applied@.len() + 1,
        cur_w.applied@.drop_last() == prev_w.applied@,
        cur_w.best_block_height == prev_w.best_block_height + 1,
        cur_w.applied@.len() == cur_w.best_block_height as int,
        prev_w.applied@.len() == prev_w.best_block_height as int,
        fetch_ok(n, cur_w.best_block_height, prev_w.best_block_hash) == Some(
            cur_w.applied@.last(),
        ),
        forall|i: int|
            k <= i < prev_w.applied@.len() ==> fetch_ok(n, (i + 1) as u64, prev_w.prev_id(i))
                == Some(#[trigger] prev_w.applied@[i]),
    ensures
        forall|i: int|
            k <= i < cur_w.applied@.len() ==> fetch_ok(n, (i + 1) as u64, cur_w.prev_id(i))
                == Some(#[trigger] cur_w.applied@[i]),
{
    let len = cur_w.applied@.len() as int;
    assert forall|i: int|
        k <= i < len implies fetch_ok(n, (i + 1) as u64, cur_w.prev_id(i)) == Some(
        #[trigger] cur_w.applied@[i],
    ) by {
        if i < len - 1 {
            assert(cur_w.applied@[i] == prev_w.applied@[i]);
            assert(cur_w.prev_id(i) == prev_w.prev_id(i));
        } else {
            assert(cur_w.applied@.last() == cur_w.applied@[len - 1]);
            assert(cur_w.prev_id(len - 1) == prev_w.tip_id());
        }
    }
}

/// After one advance, the cursor again sits on the canonical chain.
proof fn lemma_advance_cursor<N: NodeEndpoint>(n: &N, prev_hash: BlockId, cur_w: Wallet)
    requires
        cur_w.best_block_hash == cur_w.tip_id(),
        cur_w.applied@.len() == cur_w.best_block_height as int,
        cur_w.applied@.len() > 0,
        fetch_ok(n, cur_w.best_block_height, prev_hash) == Some(cur_w.applied@.last()),
    ensures
        cursor_canonical(n, cur_w),
{
    let last = cur_w.applied@.last();
    assert(n.best_at(cur_w.best_block_height) == Some(block_view_id(last)));
    assert(cur_w.tip_id() == block_view_id(last));
}

/// Applies one transaction to a store, in the replay model's order: every
/// input's coin id is removed if present, then every output owned by a
/// tracked address is inserted under its derived identifier.
fn apply_tx_to_store(store: &mut CoinStore, addrs: &Vec<Address>, tx: &Transaction, h: u64)
    requires
        old(store).wf(),
    ensures
        final(store).wf(),
        final(store)@ == apply_tx(old(store)@, addrs@.to_set(), tx@, h),
{
    let mut i: usize = 0;
    while i < tx.inputs.len()
        invariant
            store.wf(),
            i <= tx.inputs@.len(),
            store@ == apply_inputs(old(store)@, tx.inputs@.take(i as int)),
        decreases tx.inputs@.len() - i,
    {
        assert(tx.inputs@.take(i + 1).drop_last() =~= tx.inputs@.take(i as int));
        assert(tx.inputs@.take(i + 1).last() == tx.inputs@[i as int]);
        let _ = store.remove(tx.inputs[i].coin_id);
        i = i + 1;
    }
    assert(tx.inputs@.take(tx.inputs@.len() as int) =~= tx.inputs@);
    let ghost mid = store@;
    let txid = tx.id();
    let base = crate::hashing::mix_word(
        crate::hashing::mix_word(crate::hashing::HASH_SEED, txid.0),
        h,
    );
    let mut j: usize = 0;
    while j < tx.outputs.len()
        invariant
            store.wf(),
            j <= tx.outputs@.len(),
            store@ == apply_outputs(mid, addrs@.to_set(), tx@, h, j as int),
            base == crate::hashing::mix(
                crate::hashing::mix(crate::hashing::HASH_SEED, crate::transaction::tx_hash(tx@)),
                h,
            ),
            mid == apply_inputs(old(store)@, tx.inputs@),
        decreases tx.outputs@.len() - j,
    {
        let c = tx.outputs[j];
        if contains_address(addrs, &c.owner) {
            let cid = CoinId(crate::hashing::mix_word(base, j as u64));
            assert(cid == crate::transaction::output_coin_id(tx@, h, j as u64)) by {
                reveal(crate::transaction::output_coin_id);
            }
            store.insert(cid, c);
        }
        j = j + 1;
    }
}

/// Applies one block's transactions to a store, in listed order.
fn apply_block_to_store(store: &mut CoinStore, addrs: &Vec<Address>, block: &Block, h: u64)
    requires
        old(store).wf(),
    ensures
        final(store).wf(),
        final(store)@ == apply_block(old(store)@, addrs@.to_set(), block@, h),
{
    let mut i: usize = 0;
    while i < block.body.len()
        invariant
            store.wf(),
            i <= block.body@.len(),
            store@ == apply_txs(old(store)@, addrs@.to_set(), block@.body.take(i as int), h),
        decreases block.body@.len() - i,
    {
        assert(block@.body.take(i + 1).drop_last() =~= block@.body.take(i as int));
        assert(block@.body.take(i + 1).last() == block@.body[i as int]);
        assert(block@.body[i as int] == block.body@[i as int]@);
        apply_tx_to_store(store, addrs, &block.body[i], h);
        i = i + 1;
    }
    assert(block@.body.take(block@.body.len() as int) =~= block@.body);
}

/// Whether the vector holds the given address.
pub fn contains_address(v: &Vec<Address>, a: &Address) -> (r: bool)
    ensures
        r == v@.contains(*a),
{
    let mut i: usize = 0;
    while i < v.len()
        invariant
            i <= v@.len(),
            forall|k: int| 0 <= k < i ==> v@[k] != *a,
        decreases v@.len() - i,
    {
        if v[i] == *a {
            return true;
        }
        i = i + 1;
    }
    assert(!v@.contains(*a));
    false
}

} // verus!
