//! Tests for the mock ledger node.

use bonecoin::Block;
use bonecoin::MockNode;
use bonecoin::NodeEndpoint;

#[test]
fn correct_default() {
    let node = MockNode::new();

    assert_eq!(node.best_block, Block::genesis().id());
    assert_eq!(node.best_block_at_height(0), Some(Block::genesis().id()));
    assert_eq!(node.entire_block(&Block::genesis().id()), Some(Block::genesis()));
}

#[test]
fn adding_block_works_and_is_not_automatically_best() {
    let mut node = MockNode::new();
    node.add_block(Block::genesis().id(), vec![]);

    assert_eq!(node.best_block, Block::genesis().id());
    assert_eq!(node.best_block_at_height(0), Some(Block::genesis().id()));
    assert_eq!(node.best_block_at_height(1), None);
}

#[test]
fn setting_best_works() {
    let mut node = MockNode::new();
    let b1_id = node.add_block(Block::genesis().id(), vec![]);
    node.set_best(b1_id);

    assert_eq!(node.best_block, b1_id);
    assert_eq!(node.best_block_at_height(0), Some(Block::genesis().id()));
    assert_eq!(node.best_block_at_height(1), Some(b1_id));
}

#[test]
fn add_block_as_best_helper_works() {
    let mut node = MockNode::new();
    let b1_id = node.add_block_as_best(Block::genesis().id(), vec![]);

    assert_eq!(node.best_block, b1_id);
    assert_eq!(node.best_block_at_height(0), Some(Block::genesis().id()));
    assert_eq!(node.best_block_at_height(1), Some(b1_id));
}

#[test]
fn reports_correct_ancestors_even_after_reorg() {
    let mut node = MockNode::new();

    // Build an "old" chain that will eventually be orphaned off
    let old_b1_id = node.add_block_as_best(Block::genesis().id(), vec![]);
    let old_b2_id = node.add_block_as_best(old_b1_id, vec![]);
    let old_b3_id = node.add_block_as_best(old_b2_id, vec![]);

    // Ensure the correct block is reported at all generations
    assert_eq!(node.best_block, old_b3_id);
    assert_eq!(node.best_block_at_height(0), Some(Block::genesis().id()));
    assert_eq!(node.best_block_at_height(1), Some(old_b1_id));
    assert_eq!(node.best_block_at_height(2), Some(old_b2_id));
    assert_eq!(node.best_block_at_height(3), Some(old_b3_id));

    // Build a "new" chain that will become the best
    // In this case, I make it best at height two: shorter than the previous best.
    // This emphasizes that there is no longest chain rule.
    let b1_id = node.add_block(Block::genesis().id(), vec![]);
    let b2_id = node.add_block(b1_id, vec![]);
    node.set_best(b2_id);

    // Make sure the correct block is reported at all generations
    assert_eq!(node.best_block, b2_id);
    assert_eq!(node.best_block_at_height(0), Some(Block::genesis().id()));
    assert_eq!(node.best_block_at_height(1), Some(b1_id));
    assert_eq!(node.best_block_at_height(2), Some(b2_id));
    assert_eq!(node.best_block_at_height(3), None);
}
