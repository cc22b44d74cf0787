//! A light client for a UTXO-style ledger.
//!
//! The wallet tracks coins owned by a set of addresses by synchronizing
//! against a ledger source whose canonical chain may reorganize at any
//! time.  Synchronization is fork-aware and incremental: an undo log lets
//! the wallet unwind to the common ancestor and replay forward without
//! rescanning the whole chain, and without losing track of coins created
//! and destroyed within a single block.

use vstd::prelude::*;

pub mod address;
pub mod apply;
pub mod block;
pub mod coin;
pub mod hashing;
pub mod laws;
pub mod node;
pub mod store;
pub mod transaction;
pub mod wallet;

pub use address::Address;
pub use address::Signature;
pub use block::Block;
pub use block::BlockId;
pub use coin::Coin;
pub use coin::CoinId;
pub use node::MockNode;
pub use node::NodeEndpoint;
pub use transaction::Input;
pub use transaction::Transaction;
pub use transaction::TransactionId;
pub use wallet::Wallet;
pub use wallet::WalletError;
pub use wallet::WalletResult;

verus! {

} // verus!
