//! The library's laws: the convergence, rollback-correctness, same-block
//! dependency, and untracked-owner guarantees, stated and proved over the
//! synchronizer's contract and the replay model.

use vstd::prelude::*;

use crate::address::Address;
use crate::apply::apply_inputs;
use crate::apply::apply_tx;
use crate::apply::apply_txs;
use crate::apply::lemma_apply_inputs_spends;
use crate::apply::lemma_apply_outputs_frame;
use crate::apply::lemma_apply_outputs_present;
use crate::apply::lemma_replay_owners;
use crate::apply::replay;
use crate::block::BlockView;
use crate::block::block_view_id;
use crate::block::genesis_id;
use crate::coin::Coin;
use crate::coin::CoinId;
use crate::node::NodeEndpoint;
use crate::store::lemma_sums_of_equal_maps;
use crate::transaction::TransactionView;
use crate::transaction::output_coin_id;
use crate::wallet::Wallet;
use crate::wallet::can_extend;
use crate::wallet::fetch_ok;
use crate::wallet::sync_post;
use crate::wallet::sync_steps;
use crate::wallet::cursor_canonical;
use crate::wallet::synced_with;

verus! {

/// Idempotence of convergence: one pass converges the wallet, so a second
/// pass against an unchanged ledger changes nothing at all — height, id,
/// store, undo log and ghost chain included.
pub proof fn lemma_sync_idempotent<N: NodeEndpoint>(n: &N, w0: Wallet, w1: Wallet, w2: Wallet)
    requires
        sync_post(n, w0, w1),
        sync_post(n, w1, w2),
    ensures
        w2 == w1,
{
    assert(synced_with(n, w1));
}

/// What it means for a node to report `bs` as its whole canonical chain:
/// each position is canonical at its height under its content-derived id,
/// the content is served for that id, the chain is parent-linked from
/// genesis, and no higher height is canonical.
pub open spec fn chain_reported<N: NodeEndpoint>(n: &N, bs: Seq<BlockView>) -> bool {
    &&& bs.len() < u64::MAX
    &&& forall|i: int|
        0 <= i < bs.len() ==> n.best_at((i + 1) as u64) == Some(block_view_id(#[trigger] bs[i]))
    &&& forall|i: int|
        0 <= i < bs.len() ==> n.block_of(block_view_id(#[trigger] bs[i])) == Some(bs[i])
    &&& forall|i: int|
        0 <= i < bs.len() ==> (#[trigger] bs[i]).parent == (if i == 0 {
            genesis_id()
        } else {
            block_view_id(bs[i - 1])
        })
    &&& forall|h: u64| h > bs.len() ==> n.best_at(h) == None::<crate::block::BlockId>
}

/// Two parent-linked chains that agree at position `j` agree at every
/// position up to `j`, provided equal ids imply equal blocks there.
#[verifier::rlimit(100)]
proof fn lemma_chain_prefix_eq(pre: Wallet, bs: Seq<BlockView>, j: int)
    requires
        pre.chain_linked(),
        0 <= j < pre.applied@.len(),
        j < bs.len(),
        pre.applied@[j] == bs[j],
        forall|i: int|
            0 <= i < bs.len() ==> (#[trigger] bs[i]).parent == (if i == 0 {
                genesis_id()
            } else {
                block_view_id(bs[i - 1])
            }),
        forall|i: int|
            0 <= i < pre.applied@.len() && i < bs.len() ==> (block_view_id(
                #[trigger] pre.applied@[i],
            ) == block_view_id(bs[i]) ==> pre.applied@[i] == bs[i]),
    ensures
        forall|i: int| 0 <= i <= j ==> pre.applied@[i] == bs[i],
    decreases j,
{
    if j > 0 {
        assert(pre.applied@[j].parent == pre.prev_id(j)) by {
            reveal(Wallet::chain_linked);
        }
        assert(pre.applied@[j].parent == block_view_id(pre.applied@[j - 1]));
        assert(bs[j].parent == block_view_id(bs[j - 1]));
        assert(block_view_id(pre.applied@[j - 1]) == block_view_id(bs[j - 1]));
        assert(pre.applied@[j - 1] == bs[j - 1]);
        lemma_chain_prefix_eq(pre, bs, j - 1);
    }
}

/// Rollback correctness: whatever chain the wallet had synced before, one
/// pass against a node reporting canonical chain `bs` leaves the wallet
/// holding exactly `bs`, with its store equal to a replay of `bs` from
/// genesis — independent of the abandoned history ever having been
/// applied.  The last hypothesis is collision-freedom of the
/// content-derived ids between the old chain and `bs` at equal heights.
#[verifier::rlimit(100)]
pub proof fn lemma_sync_replays_canonical<N: NodeEndpoint>(
    n: &N,
    pre: Wallet,
    post: Wallet,
    bs: Seq<BlockView>,
)
    requires
        pre.wf(),
        sync_post(n, pre, post),
        chain_reported(n, bs),
        forall|i: int|
            0 <= i < pre.applied@.len() && i < bs.len() ==> (block_view_id(
                #[trigger] pre.applied@[i],
            ) == block_view_id(bs[i]) ==> pre.applied@[i] == bs[i]),
    ensures
        post.applied@ == bs,
        post.best_block_height == bs.len(),
        post.coins@ == replay(post.tracked_set(), bs),
{
    let k = choose|k: int| sync_steps(n, pre, post, k);
    // The fork point lies within the reported chain, and the retained
    // prefix of the old chain is that chain's prefix.
    if k >= 1 {
        assert(n.best_at(k as u64) == Some(block_view_id(pre.applied@[k - 1])));
        if k > bs.len() {
            assert(n.best_at(k as u64) == None::<crate::block::BlockId>);
        }
        assert(k <= bs.len());
        assert(n.best_at(((k - 1) + 1) as u64) == Some(block_view_id(bs[k - 1])));
        assert(pre.applied@[k - 1] == bs[k - 1]);
        lemma_chain_prefix_eq(pre, bs, k - 1);
    }
    // Every newly applied block is the reported canonical block, and the
    // pass cannot have gone past the reported chain's tip.
    assert forall|i: int| k <= i < post.applied@.len() implies post.applied@[i] == bs[i] && i
        < bs.len() by {
        assert(fetch_ok(n, (i + 1) as u64, post.prev_id(i)) == Some(post.applied@[i]));
        if i >= bs.len() {
            assert(n.best_at((i + 1) as u64) == None::<crate::block::BlockId>);
        }
        assert(n.best_at((i + 1) as u64) == Some(block_view_id(bs[i])));
        assert(n.block_of(block_view_id(bs[i])) == Some(bs[i]));
    }
    assert(post.applied@.len() <= bs.len());
    assert forall|i: int| 0 <= i < post.applied@.len() implies post.applied@[i] == bs[i] by {
        if i < k {
            assert(post.applied@.take(k)[i] == pre.applied@.take(k)[i]);
            assert(post.applied@[i] == pre.applied@[i]);
        }
    }
    // Convergence forces the pass to reach the reported chain's tip: one
    // more canonical block would still be applicable below it.
    if post.applied@.len() < bs.len() {
        let len = post.applied@.len() as int;
        assert(!can_extend(n, post));
        assert(post.best_block_height as int == len);
        let h: u64 = (len + 1) as u64;
        assert(n.best_at(h) == Some(block_view_id(bs[len])));
        assert(n.block_of(block_view_id(bs[len])) == Some(bs[len]));
        assert(post.best_block_hash == post.tip_id());
        if len == 0 {
            assert(bs[0].parent == genesis_id());
            assert(post.best_block_hash == genesis_id());
        } else {
            assert(post.applied@[len - 1] == bs[len - 1]);
            assert(bs[len].parent == block_view_id(bs[len - 1]));
        }
        assert(fetch_ok(n, h, post.best_block_hash) == Some(bs[len]));
        assert(can_extend(n, post));
    }
    assert(post.applied@ =~= bs);
}

/// Where the canonical chain has only grown — the wallet's cursor still
/// sits on it — a pass retains the whole previously applied chain and
/// its undo log untouched, and only appends: nothing below the old tip
/// is unwound or re-applied.  (How many ledger queries a pass issues is
/// not part of the verified state; the mock node's query counter lets
/// tests measure that the pass is proportional to the new blocks alone.)
pub proof fn lemma_grow_only_retains_chain<N: NodeEndpoint>(n: &N, pre: Wallet, post: Wallet)
    requires
        pre.wf(),
        sync_post(n, pre, post),
        cursor_canonical(n, pre),
    ensures
        pre.applied@.len() <= post.applied@.len(),
        post.applied@.take(pre.applied@.len() as int) == pre.applied@,
        post.undo_log@.take(pre.applied@.len() as int) == pre.undo_log@,
{
    let k = choose|k: int| sync_steps(n, pre, post, k);
    let h = pre.applied@.len() as int;
    if k < h {
        // Height `h` itself would have been seen to mismatch, yet the
        // cursor is canonical there.
        assert(n.best_at(h as u64) != Some(block_view_id(pre.applied@[h - 1])));
        assert(pre.best_block_hash == pre.tip_id());
        assert(pre.tip_id() == block_view_id(pre.applied@[h - 1]));
        assert(pre.best_block_height as int == h);
    }
    assert(post.applied@.take(h) == pre.applied@.take(h));
    assert(pre.applied@.take(h) =~= pre.applied@);
    assert(pre.undo_log@.take(h) =~= pre.undo_log@);
}

/// Balances are a function of the store's mathematical model alone: two
/// wallets holding equal coin maps agree on every balance and on the
/// total.  Together with `lemma_sync_replays_canonical`, the balances
/// after a reorganization equal exactly what a fresh replay of the new
/// canonical chain produces.
pub proof fn lemma_balances_agree(w1: Wallet, w2: Wallet, a: Address)
    requires
        w1.coins.wf(),
        w2.coins.wf(),
        w1.coins@ == w2.coins@,
    ensures
        w1.balance_of(a) == w2.balance_of(a),
        w1.worth() == w2.worth(),
{
    lemma_sums_of_equal_maps(w1.coins.entries@, w2.coins.entries@, a);
}

/// Same-block dependency: a transaction may spend a coin created by an
/// earlier transaction in the same block.  After the block's transactions
/// are applied in listed order, the intermediate coin is absent, and a
/// surviving tracked output of the spender is present.
pub proof fn lemma_same_block_dependency(
    m: Map<CoinId, Coin>,
    tracked_addrs: Set<Address>,
    t1: TransactionView,
    t2: TransactionView,
    h: u64,
    idx: u64,
    o: int,
)
    requires
        // Some input of `t2` spends the coin `t1` created at index `idx`.
        exists|j: int|
            0 <= j < t2.inputs.len() && (#[trigger] t2.inputs[j]).coin_id == output_coin_id(
                t1,
                h,
                idx,
            ),
        // `t2` does not itself re-create that identifier.
        forall|o2: int|
            0 <= o2 < t2.outputs.len() ==> #[trigger] output_coin_id(t2, h, o2 as u64)
                != output_coin_id(t1, h, idx),
        // `t2`'s output `o` is tracked and its id is not repeated later.
        0 <= o < t2.outputs.len(),
        tracked_addrs.contains(t2.outputs[o].owner),
        forall|o2: int|
            o < o2 < t2.outputs.len() ==> #[trigger] output_coin_id(t2, h, o2 as u64)
                != output_coin_id(t2, h, o as u64),
    ensures
        !apply_txs(m, tracked_addrs, seq![t1, t2], h).contains_key(output_coin_id(t1, h, idx)),
        apply_txs(m, tracked_addrs, seq![t1, t2], h).contains_key(output_coin_id(t2, h, o as u64)),
        apply_txs(m, tracked_addrs, seq![t1, t2], h)[output_coin_id(t2, h, o as u64)]
            == t2.outputs[o],
{
    let both = seq![t1, t2];
    assert(both.drop_last() =~= seq![t1]);
    assert(seq![t1].drop_last() =~= Seq::<TransactionView>::empty());
    let m1 = apply_tx(m, tracked_addrs, t1, h);
    assert(both.last() == t2);
    assert(seq![t1].last() == t1);
    assert(apply_txs(m, tracked_addrs, Seq::<TransactionView>::empty(), h) == m);
    assert(apply_txs(m, tracked_addrs, seq![t1], h) == apply_tx(m, tracked_addrs, t1, h));
    assert(apply_txs(m, tracked_addrs, both, h) == apply_tx(
        apply_txs(m, tracked_addrs, both.drop_last(), h),
        tracked_addrs,
        t2,
        h,
    ));
    assert(apply_txs(m, tracked_addrs, both, h) == apply_tx(m1, tracked_addrs, t2, h));
    let mid = output_coin_id(t1, h, idx);
    lemma_apply_inputs_spends(m1, t2.inputs, mid);
    lemma_apply_outputs_frame(
        apply_inputs(m1, t2.inputs),
        tracked_addrs,
        t2,
        h,
        t2.outputs.len() as int,
        mid,
    );
    lemma_apply_outputs_present(
        apply_inputs(m1, t2.inputs),
        tracked_addrs,
        t2,
        h,
        t2.outputs.len() as int,
        o,
    );
}

/// Untracked-owner filtering: a coin whose owner the wallet does not
/// track never appears in a well-formed wallet's store, so the wallet's
/// total never counts untracked coins.
pub proof fn lemma_untracked_never_stored(w: Wallet, id: CoinId)
    requires
        w.wf(),
        w.coins@.contains_key(id),
    ensures
        w.tracked_set().contains(w.coins@[id].owner),
{
    lemma_replay_owners(w.tracked_set(), w.applied@);
}

} // verus!
