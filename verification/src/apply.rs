//! The mathematical model of applying ledger data to a UTXO store.
//!
//! A block's transactions are applied in listed order: each input removes
//! its coin identifier if present, and each output whose owner is tracked
//! inserts the output coin under its derived identifier.  `replay` folds
//! whole blocks over the empty store from genesis, the height of a block
//! being its position in the chain.  The undo model describes how an exact
//! mutation delta reverses one block's application.

use vstd::prelude::*;

use crate::address::Address;
use crate::block::BlockView;
use crate::coin::Coin;
use crate::coin::CoinId;
use crate::store::map_get;
use crate::transaction::Input;
use crate::transaction::TransactionView;
use crate::transaction::output_coin_id;

verus! {

/// Removes the coin identifiers consumed by the first `n` inputs.
pub open spec fn apply_inputs(m: Map<CoinId, Coin>, inputs: Seq<Input>) -> Map<CoinId, Coin>
    decreases inputs.len(),
{
    if inputs.len() == 0 {
        m
    } else {
        apply_inputs(m, inputs.drop_last()).remove(inputs.last().coin_id)
    }
}

/// Inserts the first `n` outputs of `t`, included at height `h`, whose
/// owners are tracked.
pub open spec fn apply_outputs(
    m: Map<CoinId, Coin>,
    tracked_set: Set<Address>,
    t: TransactionView,
    h: u64,
    n: int,
) -> Map<CoinId, Coin>
    decreases n,
{
    if n <= 0 {
        m
    } else {
        let prev = apply_outputs(m, tracked_set, t, h, n - 1);
        let c = t.outputs[n - 1];
        if tracked_set.contains(c.owner) {
            prev.insert(output_coin_id(t, h, (n - 1) as u64), c)
        } else {
            prev
        }
    }
}

/// Applies one transaction: all inputs, then all outputs.
pub open spec fn apply_tx(
    m: Map<CoinId, Coin>,
    tracked_set: Set<Address>,
    t: TransactionView,
    h: u64,
) -> Map<CoinId, Coin> {
    apply_outputs(apply_inputs(m, t.inputs), tracked_set, t, h, t.outputs.len() as int)
}

/// Applies a sequence of transactions in listed order.
pub open spec fn apply_txs(
    m: Map<CoinId, Coin>,
    tracked_set: Set<Address>,
    txs: Seq<TransactionView>,
    h: u64,
) -> Map<CoinId, Coin>
    decreases txs.len(),
{
    if txs.len() == 0 {
        m
    } else {
        apply_tx(apply_txs(m, tracked_set, txs.drop_last(), h), tracked_set, txs.last(), h)
    }
}

/// Applies one block at height `h`.
pub open spec fn apply_block(
    m: Map<CoinId, Coin>,
    tracked_set: Set<Address>,
    b: BlockView,
    h: u64,
) -> Map<CoinId, Coin> {
    apply_txs(m, tracked_set, b.body, h)
}

/// The store obtained by replaying a chain of blocks from genesis, the
/// block at position `i` being applied at height `i + 1`.
pub open spec fn replay(tracked_set: Set<Address>, bs: Seq<BlockView>) -> Map<CoinId, Coin>
    decreases bs.len(),
{
    if bs.len() == 0 {
        Map::empty()
    } else {
        apply_block(replay(tracked_set, bs.drop_last()), tracked_set, bs.last(), bs.len() as u64)
    }
}

/// Removes the identifiers of all pairs in `s` from `m`.
pub open spec fn remove_ids(m: Map<CoinId, Coin>, s: Seq<(CoinId, Coin)>) -> Map<CoinId, Coin>
    decreases s.len(),
{
    if s.len() == 0 {
        m
    } else {
        remove_ids(m, s.drop_last()).remove(s.last().0)
    }
}

/// Inserts all pairs in `s` into `m`, later pairs winning.
pub open spec fn insert_pairs(m: Map<CoinId, Coin>, s: Seq<(CoinId, Coin)>) -> Map<CoinId, Coin>
    decreases s.len(),
{
    if s.len() == 0 {
        m
    } else {
        insert_pairs(m, s.drop_last()).insert(s.last().0, s.last().1)
    }
}

/// Reverses one block's application: delete what the block inserted, then
/// restore what it removed, with the recorded values.
pub open spec fn undo_apply(
    m: Map<CoinId, Coin>,
    inserted: Seq<(CoinId, Coin)>,
    removed: Seq<(CoinId, Coin)>,
) -> Map<CoinId, Coin> {
    insert_pairs(remove_ids(m, inserted), removed)
}

/// Whether every coin in `m` is owned by a tracked address.
pub open spec fn owners_tracked(m: Map<CoinId, Coin>, tracked_set: Set<Address>) -> bool {
    forall|id: CoinId| m.contains_key(id) ==> tracked_set.contains((#[trigger] m[id]).owner)
}

/// Input application only removes coins, so tracked ownership persists.
pub proof fn lemma_apply_inputs_owners(
    m: Map<CoinId, Coin>,
    tracked_set: Set<Address>,
    inputs: Seq<Input>,
)
    requires
        owners_tracked(m, tracked_set),
    ensures
        owners_tracked(apply_inputs(m, inputs), tracked_set),
    decreases inputs.len(),
{
    if inputs.len() > 0 {
        lemma_apply_inputs_owners(m, tracked_set, inputs.drop_last());
    }
}

/// Output application only inserts coins with tracked owners.
pub proof fn lemma_apply_outputs_owners(
    m: Map<CoinId, Coin>,
    tracked_set: Set<Address>,
    t: TransactionView,
    h: u64,
    n: int,
)
    requires
        owners_tracked(m, tracked_set),
    ensures
        owners_tracked(apply_outputs(m, tracked_set, t, h, n), tracked_set),
    decreases n,
{
    if n > 0 {
        lemma_apply_outputs_owners(m, tracked_set, t, h, n - 1);
    }
}

/// Applying transactions preserves tracked ownership of every coin.
pub proof fn lemma_apply_txs_owners(
    m: Map<CoinId, Coin>,
    tracked_set: Set<Address>,
    txs: Seq<TransactionView>,
    h: u64,
)
    requires
        owners_tracked(m, tracked_set),
    ensures
        owners_tracked(apply_txs(m, tracked_set, txs, h), tracked_set),
    decreases txs.len(),
{
    if txs.len() > 0 {
        lemma_apply_txs_owners(m, tracked_set, txs.drop_last(), h);
        let prev = apply_txs(m, tracked_set, txs.drop_last(), h);
        let t = txs.last();
        lemma_apply_inputs_owners(prev, tracked_set, t.inputs);
        lemma_apply_outputs_owners(
            apply_inputs(prev, t.inputs),
            tracked_set,
            t,
            h,
            t.outputs.len() as int,
        );
    }
}

/// Every coin a replayed chain leaves in the store is owned by a tracked
/// address: coins of untracked owners never enter the store.
pub proof fn lemma_replay_owners(tracked_set: Set<Address>, bs: Seq<BlockView>)
    ensures
        owners_tracked(replay(tracked_set, bs), tracked_set),
    decreases bs.len(),
{
    if bs.len() > 0 {
        lemma_replay_owners(tracked_set, bs.drop_last());
        lemma_apply_txs_owners(
            replay(tracked_set, bs.drop_last()),
            tracked_set,
            bs.last().body,
            bs.len() as u64,
        );
    }
}

/// A coin id named by any input does not survive input application.
pub proof fn lemma_apply_inputs_spends(m: Map<CoinId, Coin>, inputs: Seq<Input>, id: CoinId)
    requires
        exists|j: int| 0 <= j < inputs.len() && (#[trigger] inputs[j]).coin_id == id,
    ensures
        !apply_inputs(m, inputs).contains_key(id),
    decreases inputs.len(),
{
    let j = choose|j: int| 0 <= j < inputs.len() && (#[trigger] inputs[j]).coin_id == id;
    if j == inputs.len() - 1 {
    } else {
        assert(inputs.drop_last()[j] == inputs[j]);
        lemma_apply_inputs_spends(m, inputs.drop_last(), id);
    }
}

/// Output application does not disturb a key that no output derives.
pub proof fn lemma_apply_outputs_frame(
    m: Map<CoinId, Coin>,
    tracked_set: Set<Address>,
    t: TransactionView,
    h: u64,
    n: int,
    id: CoinId,
)
    requires
        forall|o: int| 0 <= o < n ==> #[trigger] output_coin_id(t, h, o as u64) != id,
    ensures
        apply_outputs(m, tracked_set, t, h, n).contains_key(id) == m.contains_key(id),
        apply_outputs(m, tracked_set, t, h, n).contains_key(id) ==> apply_outputs(
            m,
            tracked_set,
            t,
            h,
            n,
        )[id] == m[id],
    decreases n,
{
    if n > 0 {
        lemma_apply_outputs_frame(m, tracked_set, t, h, n - 1, id);
    }
}

/// An output owned by a tracked address, whose identifier no later
/// output of the same transaction repeats, is present after the
/// transaction's outputs are applied.
pub proof fn lemma_apply_outputs_present(
    m: Map<CoinId, Coin>,
    tracked_set: Set<Address>,
    t: TransactionView,
    h: u64,
    n: int,
    o: int,
)
    requires
        0 <= o < n <= t.outputs.len(),
        tracked_set.contains(t.outputs[o].owner),
        forall|o2: int| o < o2 < n ==> #[trigger] output_coin_id(t, h, o2 as u64)
            != output_coin_id(t, h, o as u64),
    ensures
        apply_outputs(m, tracked_set, t, h, n).contains_key(output_coin_id(t, h, o as u64)),
        apply_outputs(m, tracked_set, t, h, n)[output_coin_id(t, h, o as u64)] == t.outputs[o],
    decreases n,
{
    if o == n - 1 {
    } else {
        lemma_apply_outputs_present(m, tracked_set, t, h, n - 1, o);
    }
}

/// Pointwise reading of `remove_ids`.
pub proof fn lemma_remove_ids_get(m: Map<CoinId, Coin>, s: Seq<(CoinId, Coin)>, id: CoinId)
    ensures
        map_get(remove_ids(m, s), id) == if exists|k: int| 0 <= k < s.len() && s[k].0 == id {
            None::<Coin>
        } else {
            map_get(m, id)
        },
    decreases s.len(),
{
    if s.len() > 0 {
        lemma_remove_ids_get(m, s.drop_last(), id);
        if s.last().0 == id {
            assert(s[s.len() - 1].0 == id);
        } else {
            if exists|k: int| 0 <= k < s.len() && s[k].0 == id {
                let k = choose|k: int| 0 <= k < s.len() && s[k].0 == id;
                assert(s.drop_last()[k].0 == id);
            }
            if exists|k: int| 0 <= k < s.drop_last().len() && s.drop_last()[k].0 == id {
                let k = choose|k: int| 0 <= k < s.drop_last().len() && s.drop_last()[k].0 == id;
                assert(s[k].0 == id);
            }
        }
    }
}

/// Pointwise reading of `insert_pairs`, under distinct identifiers.
pub proof fn lemma_insert_pairs_get(m: Map<CoinId, Coin>, s: Seq<(CoinId, Coin)>, id: CoinId)
    requires
        crate::store::ids_distinct(s),
    ensures
        forall|k: int|
            0 <= k < s.len() && s[k].0 == id ==> map_get(insert_pairs(m, s), id) == Some(s[k].1),
        (forall|k: int| 0 <= k < s.len() ==> s[k].0 != id) ==> map_get(insert_pairs(m, s), id)
            == map_get(m, id),
    decreases s.len(),
{
    if s.len() > 0 {
        assert(crate::store::ids_distinct(s.drop_last()));
        lemma_insert_pairs_get(m, s.drop_last(), id);
        assert forall|k: int| 0 <= k < s.len() && s[k].0 == id implies map_get(
            insert_pairs(m, s),
            id,
        ) == Some(s[k].1) by {
            if k == s.len() - 1 {
            } else {
                assert(s.drop_last()[k].0 == id);
                assert(s.last().0 != id);
            }
        }
    }
}

/// An exact mutation delta reverses a block's application: if `rem` lists
/// exactly the pairs of `b` that `a` no longer maps the same way, and
/// `ins` lists exactly the pairs of `a` that `b` did not map the same way,
/// then undoing the delta on `a` restores `b` exactly.
pub proof fn lemma_undo_exact(
    b: Map<CoinId, Coin>,
    a: Map<CoinId, Coin>,
    ins: Seq<(CoinId, Coin)>,
    rem: Seq<(CoinId, Coin)>,
)
    requires
        crate::store::ids_distinct(ins),
        crate::store::ids_distinct(rem),
        forall|k: int|
            0 <= k < rem.len() ==> map_get(b, (#[trigger] rem[k]).0) == Some(rem[k].1)
                && map_get(a, rem[k].0) != Some(rem[k].1),
        forall|id: CoinId|
            b.contains_key(id) && map_get(a, id) != Some(b[id]) ==> exists|k: int|
                0 <= k < rem.len() && (#[trigger] rem[k]).0 == id,
        forall|k: int|
            0 <= k < ins.len() ==> map_get(a, (#[trigger] ins[k]).0) == Some(ins[k].1)
                && map_get(b, ins[k].0) != Some(ins[k].1),
        forall|id: CoinId|
            a.contains_key(id) && map_get(b, id) != Some(a[id]) ==> exists|k: int|
                0 <= k < ins.len() && (#[trigger] ins[k]).0 == id,
    ensures
        undo_apply(a, ins, rem) == b,
{
    let mid = remove_ids(a, ins);
    let res = insert_pairs(mid, rem);
    assert forall|id: CoinId| #[trigger] map_get(res, id) == map_get(b, id) by {
        lemma_remove_ids_get(a, ins, id);
        lemma_insert_pairs_get(mid, rem, id);
        if exists|k: int| 0 <= k < rem.len() && (#[trigger] rem[k]).0 == id {
            let k = choose|k: int| 0 <= k < rem.len() && (#[trigger] rem[k]).0 == id;
            assert(map_get(res, id) == Some(rem[k].1));
            assert(map_get(b, id) == Some(rem[k].1));
        } else {
            if b.contains_key(id) {
                assert(map_get(a, id) == Some(b[id]));
                assert(forall|k: int| 0 <= k < ins.len() ==> (#[trigger] ins[k]).0 != id) by {
                    assert forall|k: int| 0 <= k < ins.len() implies (#[trigger] ins[k]).0 != id by {
                        if ins[k].0 == id {
                            assert(map_get(a, id) == Some(ins[k].1));
                            assert(map_get(b, id) != Some(ins[k].1));
                        }
                    }
                }
                assert(map_get(res, id) == map_get(a, id));
            } else {
                if a.contains_key(id) {
                    assert(map_get(b, id) != Some(a[id]));
                    assert(exists|k: int| 0 <= k < ins.len() && (#[trigger] ins[k]).0 == id);
                    assert(map_get(res, id) == None::<Coin>);
                } else {
                    if exists|k: int| 0 <= k < ins.len() && (#[trigger] ins[k]).0 == id {
                        let k = choose|k: int| 0 <= k < ins.len() && (#[trigger] ins[k]).0 == id;
                        assert(map_get(a, ins[k].0) == Some(ins[k].1));
                    }
                    assert(map_get(res, id) == map_get(a, id));
                }
            }
        }
    }
    assert forall|id: CoinId| res.contains_key(id) <==> b.contains_key(id) by {
        assert(map_get(res, id) == map_get(b, id));
    }
    assert forall|id: CoinId| res.contains_key(id) implies res[id] == b[id] by {
        assert(map_get(res, id) == map_get(b, id));
    }
    assert(res =~= b);
}

} // verus!
