//! Basic wallet state tests.

use bonecoin::Address;
use bonecoin::Block;
use bonecoin::Wallet;

fn wallet_with_alice() -> Wallet {
    Wallet::new(vec![Address::Alice])
}

// test_wallet_initialization
#[test]
fn test_wallet_initialization() {
    let wallet = wallet_with_alice();
    assert_eq!(wallet.coins.len(), 0);
    assert_eq!(wallet.addresses.len(), 1);
    assert_eq!(wallet.addresses.iter().next().unwrap(), &Address::Alice);
}

// test_best
#[test]
fn test_best() {
    // simulate updating the best height and hash
    let addresses = vec![Address::Alice, Address::Bob];
    let wallet = Wallet::new(addresses);

    // test for best height
    assert_eq!(wallet.best_height(), 0);
    let mut wallet = wallet;
    wallet.best_block_height = 5;
    assert_eq!(wallet.best_height(), 5);

    // test for best hash
    assert_eq!(wallet.best_hash(), Block::genesis().id());
    let new_block_id = Block::genesis().id(); // existing BlockId for the test
    wallet.best_block_hash = new_block_id;
    assert_eq!(wallet.best_hash(), new_block_id);
}
