//! Scenario tests for the library's guarantees: idempotent convergence,
//! rollback correctness across reorgs, incremental (no-rescan)
//! synchronization, same-block spends, untracked-owner filtering, and the
//! transaction builders' error taxonomy.

use std::collections::HashSet;

use bonecoin::Address;
use bonecoin::Block;
use bonecoin::Coin;
use bonecoin::CoinId;
use bonecoin::Input;
use bonecoin::MockNode;
use bonecoin::Signature;
use bonecoin::Transaction;
use bonecoin::Wallet;
use bonecoin::WalletError;

fn mint_to(owner: Address, value: u64) -> Transaction {
    Transaction {
        inputs: vec![Input::dummy()],
        outputs: vec![Coin { value, owner }],
    }
}

#[test]
fn sync_twice_changes_nothing() {
    let mut node = MockNode::new();
    let b1 = node.add_block_as_best(Block::genesis().id(), vec![mint_to(Address::Alice, 70)]);
    let _b2 = node.add_block_as_best(b1, vec![mint_to(Address::Alice, 30)]);

    let mut wallet = Wallet::new(vec![Address::Alice]);
    wallet.sync(&node);
    let height = wallet.best_height();
    let hash = wallet.best_hash();
    let alice = wallet.total_assets_of(Address::Alice);
    let worth = wallet.net_worth();

    wallet.sync(&node);
    assert_eq!(wallet.best_height(), height);
    assert_eq!(wallet.best_hash(), hash);
    assert_eq!(wallet.total_assets_of(Address::Alice), alice);
    assert_eq!(wallet.net_worth(), worth);
    assert_eq!(alice, Ok(100));
    assert_eq!(worth, 100);
}

#[test]
fn reorg_restores_balances_of_new_chain() {
    // Sync a chain whose block 1 pays Alice 100, then reorg to a chain
    // whose block 1 pays her 40 instead; the balance must be exactly what
    // replaying the new chain from genesis produces.
    let mut node = MockNode::new();
    let old_b1 = node.add_block_as_best(Block::genesis().id(), vec![mint_to(Address::Alice, 100)]);
    let _old_b2 = node.add_block_as_best(old_b1, vec![mint_to(Address::Alice, 5)]);

    let mut wallet = Wallet::new(vec![Address::Alice]);
    wallet.sync(&node);
    assert_eq!(wallet.total_assets_of(Address::Alice), Ok(105));

    let new_b1 = node.add_block(Block::genesis().id(), vec![mint_to(Address::Alice, 40)]);
    node.set_best(new_b1);
    wallet.sync(&node);

    assert_eq!(wallet.best_height(), 1);
    assert_eq!(wallet.best_hash(), new_b1);
    assert_eq!(wallet.total_assets_of(Address::Alice), Ok(40));
    assert_eq!(wallet.net_worth(), 40);
}

#[test]
fn no_rescan_query_count() {
    // When the canonical chain only grows by m blocks, one sync issues a
    // number of ledger queries proportional to m, not to the chain height.
    let mut node = MockNode::new();
    let mut tip = Block::genesis().id();
    for _ in 0..8 {
        tip = node.add_block_as_best(tip, vec![]);
    }
    let mut wallet = Wallet::new(vec![Address::Alice]);
    wallet.sync(&node);

    let before = node.how_many_queries();
    for _ in 0..3 {
        tip = node.add_block_as_best(tip, vec![]);
    }
    wallet.sync(&node);
    let spent = node.how_many_queries() - before;

    // One cursor probe, one probe per new height, and the final probe
    // past the tip.  Block bodies are fetched by id and not counted.
    assert!(spent <= 2 * 3 + 2, "sync issued {} queries for 3 new blocks", spent);
    assert_eq!(wallet.best_height(), 11);
}

#[test]
fn same_block_spend_keeps_only_final_coin() {
    // A block may hold a transaction spending a coin created earlier in
    // that same block: afterwards the intermediate coin is gone and only
    // the final output remains.
    let tx_mint = Transaction {
        inputs: vec![Input::dummy()],
        outputs: vec![Coin { value: 60, owner: Address::Alice }],
    };
    let mid_coin_id = tx_mint.coin_id(1, 0);
    let tx_spend = Transaction {
        inputs: vec![Input { coin_id: mid_coin_id, signature: Signature::Valid(Address::Alice) }],
        outputs: vec![Coin { value: 60, owner: Address::Bob }],
    };
    let final_coin_id = tx_spend.coin_id(1, 0);

    let mut node = MockNode::new();
    node.add_block_as_best(Block::genesis().id(), vec![tx_mint, tx_spend]);

    let mut wallet = Wallet::new(vec![Address::Alice, Address::Bob]);
    wallet.sync(&node);

    assert_eq!(wallet.coin_details(&mid_coin_id), Err(WalletError::UnknownCoin));
    assert_eq!(
        wallet.coin_details(&final_coin_id),
        Ok(Coin { value: 60, owner: Address::Bob })
    );
    assert_eq!(wallet.total_assets_of(Address::Alice), Ok(0));
    assert_eq!(wallet.total_assets_of(Address::Bob), Ok(60));
}

#[test]
fn untracked_owner_coins_never_enter_the_store() {
    let tx_tracked = mint_to(Address::Alice, 10);
    let tx_foreign = mint_to(Address::Eve, 1000);
    let foreign_coin_id = tx_foreign.coin_id(1, 0);

    let mut node = MockNode::new();
    node.add_block_as_best(Block::genesis().id(), vec![tx_tracked, tx_foreign]);

    let mut wallet = Wallet::new(vec![Address::Alice]);
    wallet.sync(&node);

    // The foreign coin is invisible, and the total counts tracked coins only.
    assert_eq!(wallet.coin_details(&foreign_coin_id), Err(WalletError::UnknownCoin));
    assert_eq!(wallet.net_worth(), 10);
    assert_eq!(wallet.coins.len(), 1);
}

#[test]
fn manual_transaction_with_zero_inputs() {
    let wallet = Wallet::new(vec![Address::Alice]);
    assert_eq!(
        wallet.create_manual_transaction(vec![], vec![Coin { value: 10, owner: Address::Bob }]),
        Err(WalletError::ZeroInputs)
    );
}

#[test]
fn automatic_transaction_with_zero_payment() {
    let wallet = Wallet::new(vec![Address::Alice]);
    assert_eq!(
        wallet.create_automatic_transaction(Address::Bob, 0, 0),
        Err(WalletError::ZeroCoinValue)
    );
}

#[test]
fn manual_transaction_builds_expected_content() {
    let tx = mint_to(Address::Alice, 100);
    let coin_id = tx.coin_id(1, 0);

    let mut node = MockNode::new();
    node.add_block_as_best(Block::genesis().id(), vec![tx]);

    let mut wallet = Wallet::new(vec![Address::Alice]);
    wallet.sync(&node);

    let payment = Coin { value: 80, owner: Address::Bob };
    let built = wallet
        .create_manual_transaction(vec![coin_id], vec![payment.clone()])
        .unwrap();
    assert_eq!(built.inputs.len(), 1);
    assert_eq!(built.inputs[0].coin_id, coin_id);
    assert_eq!(built.inputs[0].signature, Signature::Valid(Address::Alice));
    assert_eq!(built.outputs, vec![payment]);
}

#[test]
fn automatic_transaction_pays_change_to_owned_address() {
    let tx = mint_to(Address::Alice, 100);

    let mut node = MockNode::new();
    node.add_block_as_best(Block::genesis().id(), vec![tx]);

    let mut wallet = Wallet::new(vec![Address::Alice]);
    wallet.sync(&node);

    // Pay 60, tip 10: the single 100-coin is consumed, change is 30.
    let built = wallet.create_automatic_transaction(Address::Bob, 60, 10).unwrap();
    assert_eq!(built.inputs.len(), 1);
    assert_eq!(built.outputs.len(), 2);
    assert_eq!(built.outputs[0], Coin { value: 60, owner: Address::Bob });
    assert_eq!(built.outputs[1], Coin { value: 30, owner: Address::Alice });
}

#[test]
fn identifiers_are_content_and_position_derived() {
    let tx = mint_to(Address::Alice, 100);
    // The same transaction body at different heights or output indexes
    // yields different coin ids; equal content yields equal ids.
    assert_ne!(tx.coin_id(1, 0), tx.coin_id(2, 0));
    assert_ne!(tx.coin_id(1, 0), tx.coin_id(1, 1));
    assert_eq!(tx.coin_id(3, 7), tx.clone().coin_id(3, 7));
    assert_eq!(tx.id(), mint_to(Address::Alice, 100).id());
    assert_ne!(mint_to(Address::Alice, 100).id(), mint_to(Address::Alice, 101).id());
    assert_ne!(Block::genesis().id(), {
        let mut node = MockNode::new();
        node.add_block(Block::genesis().id(), vec![])
    });
}

#[test]
fn transaction_iterators_report_ids_in_order() {
    let tx = Transaction {
        inputs: vec![
            Input { coin_id: CoinId(7), signature: Signature::Invalid },
            Input { coin_id: CoinId(9), signature: Signature::Valid(Address::Bob) },
        ],
        outputs: vec![
            Coin { value: 1, owner: Address::Alice },
            Coin { value: 2, owner: Address::Bob },
        ],
    };
    assert_eq!(tx.iter_input_coin_ids(), vec![CoinId(7), CoinId(9)]);
    let outs = tx.iter_output_coins_and_ids(4);
    assert_eq!(outs.len(), 2);
    assert_eq!(outs[0], (tx.coin_id(4, 0), Coin { value: 1, owner: Address::Alice }));
    assert_eq!(outs[1], (tx.coin_id(4, 1), Coin { value: 2, owner: Address::Bob }));
}

#[test]
fn interrupted_sync_resumes_later() {
    // A reorg to a longer chain with activity on both sides: the wallet
    // unwinds the abandoned branch and replays the new one, and coins
    // spent on the abandoned branch come back.
    let mint = Transaction {
        inputs: vec![Input::dummy()],
        outputs: vec![Coin { value: 25, owner: Address::Alice }],
    };
    let coin_id = mint.coin_id(1, 0);
    let spend = Transaction {
        inputs: vec![Input { coin_id, signature: Signature::Valid(Address::Alice) }],
        outputs: vec![],
    };

    let mut node = MockNode::new();
    let b1 = node.add_block_as_best(Block::genesis().id(), vec![mint.clone()]);
    let old_b2 = node.add_block_as_best(b1, vec![spend]);

    let mut wallet = Wallet::new(vec![Address::Alice]);
    wallet.sync(&node);
    assert_eq!(wallet.total_assets_of(Address::Alice), Ok(0));

    // Reorg: same block 1, but the spend never happens on the new branch.
    let new_b2 = node.add_block(b1, vec![mint_to(Address::Bob, 1)]);
    let new_b3 = node.add_block(new_b2, vec![]);
    node.set_best(new_b3);
    wallet.sync(&node);

    assert_ne!(old_b2, new_b2);
    assert_eq!(wallet.best_height(), 3);
    assert_eq!(wallet.best_hash(), new_b3);
    assert_eq!(wallet.total_assets_of(Address::Alice), Ok(25));
    let coins: HashSet<(CoinId, u64)> =
        HashSet::from_iter(wallet.all_coins_of(Address::Alice).unwrap());
    assert_eq!(coins, HashSet::from_iter([(coin_id, 25)]));
}
