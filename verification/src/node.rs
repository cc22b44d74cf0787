//! The ledger source interface, and a mock node for tests.
//!
//! A ledger source answers two read-only queries: the canonical block id
//! at a height, and full block content by id.  The trait carries two spec
//! functions that fix what a given node value answers, so that the
//! synchronizer's contract can speak about the node's current canonical
//! view.  The mock node keeps a full fork tree of blocks, an explicit
//! canonical chain chosen by `set_best`, and a query counter that lets
//! tests measure how many queries a synchronization pass issues.

use vstd::prelude::*;

use crate::block::Block;
use crate::block::BlockId;
use crate::block::BlockView;
use crate::block::block_view_id;
use crate::block::clone_block;
use crate::block::genesis_id;
use crate::store::ids_distinct;
use crate::store::map_get;
use crate::store::map_of;
use crate::store::lemma_map_of_contains;
use crate::store::lemma_map_of_index;
use crate::transaction::Transaction;

verus! {

/// A common interface for a wallet to interact with a ledger node.
pub trait NodeEndpoint {
    /// The canonical block id this node currently reports at height `h`,
    /// or `None` where its canonical chain is shorter.
    spec fn best_at(&self, h: u64) -> Option<BlockId>;

    /// The block content this node serves for `id`, or `None` where the
    /// id is unknown to it.
    spec fn block_of(&self, id: BlockId) -> Option<BlockView>;

    /// Query the id of the node's best block at a given height.
    fn best_block_at_height(&self, h: u64) -> (r: Option<BlockId>)
        ensures
            r == self.best_at(h),
    ;

    /// Fetch the entire body of a block given its block id.
    fn entire_block(&self, id: &BlockId) -> (r: Option<Block>)
        ensures
            match r {
                Some(b) => self.block_of(*id) == Some(b@),
                None => self.block_of(*id) is None,
            },
    ;
}

#[verifier::external_type_specification]
#[verifier::external_body]
#[verifier::reject_recursive_types(T)]
pub struct ExCell<T: ?Sized>(core::cell::Cell<T>);

/// Relies on `core::cell::Cell::new`: wraps a value in a cell.  The cell
/// is opaque here; nothing is assumed about what it later yields.
pub assume_specification<T>[ core::cell::Cell::<T>::new ](value: T) -> core::cell::Cell<T>;

/// Relies on `core::cell::Cell::get`: returns a copy of the contained
/// value.  No relation to earlier values is assumed.
pub assume_specification<T: Copy>[ core::cell::Cell::<T>::get ](c: &core::cell::Cell<T>) -> T;

/// Relies on `core::cell::Cell::set`: replaces the contained value.
pub assume_specification<T>[ core::cell::Cell::<T>::set ](c: &core::cell::Cell<T>, val: T);

/// Pushing a fresh, well-linked, content-addressed block onto the
/// database preserves the mock node's well-formedness.
pub proof fn lemma_node_wf_after_push(prev: MockNode, cur: MockNode, id: BlockId, bv: BlockView)
    requires
        prev.wf(),
        cur.blocks_pairs() == prev.blocks_pairs().push((id, bv)),
        cur.canonical@ == prev.canonical@,
        cur.best_block == prev.best_block,
        !prev.blocks_map().contains_key(id),
        id == block_view_id(bv),
        prev.blocks_map().contains_key(bv.parent),
        bv.number >= 1,
        bv.number == prev.blocks_map()[bv.parent].number + 1,
    ensures
        cur.wf(),
        cur.blocks_map() == prev.blocks_map().insert(id, bv),
{
    let op = prev.blocks_pairs();
    let np = cur.blocks_pairs();
    let m = prev.blocks_map();
    lemma_map_of_contains(op, id);
    assert(forall|k: int| 0 <= k < op.len() ==> (#[trigger] op[k]).0 != id);
    assert(np.drop_last() =~= op);
    assert(np.last() == (id, bv));
    assert(cur.blocks_map() == m.insert(id, bv));
    let m2 = cur.blocks_map();
    assert forall|i: int, j: int| 0 <= i < j < np.len() implies np[i].0 != np[j].0 by {
        assert(np[i] == op[i]);
        if j < op.len() {
            assert(np[j] == op[j]);
        }
    }
    assert forall|k: int|
        0 <= k < np.len() implies (#[trigger] np[k]).0 == block_view_id(np[k].1) by {
        if k < op.len() {
            assert(np[k] == op[k]);
        }
    }
    assert forall|k: int|
        0 <= k < np.len() && (#[trigger] np[k]).1.number == 0 implies np[k].0 == genesis_id() by {
        if k < op.len() {
            assert(np[k] == op[k]);
        }
    }
    assert forall|k: int|
        0 <= k < np.len() && (#[trigger] np[k]).1.number > 0 implies m2.contains_key(
        np[k].1.parent,
    ) && m2[np[k].1.parent].number + 1 == np[k].1.number by {
        if k < op.len() {
            assert(np[k] == op[k]);
            assert(m.contains_key(op[k].1.parent) && m[op[k].1.parent].number + 1
                == op[k].1.number);
        } else {
            assert(np[k] == (id, bv));
        }
    }
    assert forall|h: int|
        0 <= h < cur.canonical@.len() implies m2.contains_key(#[trigger] cur.canonical@[h])
        && m2[cur.canonical@[h]].number == h by {
        assert(m.contains_key(prev.canonical@[h]) && m[prev.canonical@[h]].number == h);
    }
    assert forall|h: int|
        1 <= h < cur.canonical@.len() implies m2[#[trigger] cur.canonical@[h]].parent
        == cur.canonical@[h - 1] by {
        assert(m.contains_key(prev.canonical@[h]));
        assert(m[prev.canonical@[h]].parent == prev.canonical@[h - 1]);
    }
}

/// A mock ledger node, for writing tests.
///
/// The block database is a full fork tree, not a linear chain; the only
/// validity assumption is that every block's parent is present (except
/// genesis).  The node has no fork choice rule: `set_best` is the only way
/// the canonical chain changes.
pub struct MockNode {
    /// The complete database of blocks this node knows, content-addressed.
    pub blocks: Vec<(BlockId, Block)>,
    /// The canonical chain: element `h` is the canonical id at height `h`.
    pub canonical: Vec<BlockId>,
    /// The id of the block the node currently considers best.
    pub best_block: BlockId,
    /// How many times the node was queried over the `NodeEndpoint`
    /// interface.  Test-harness metrics only: an inefficient wallet that
    /// re-syncs from scratch every call shows up here.
    pub calls_so_far: core::cell::Cell<u64>,
}

impl MockNode {
    /// The database entries, at the level of block contents.
    pub open spec fn blocks_pairs(&self) -> Seq<(BlockId, BlockView)> {
        self.blocks@.map_values(|p: (BlockId, Block)| (p.0, p.1@))
    }

    /// The block database as a mapping from id to content.
    pub open spec fn blocks_map(&self) -> Map<BlockId, BlockView> {
        map_of(self.blocks_pairs())
    }

    /// Well-formedness of the mock node's state.
    pub open spec fn wf(&self) -> bool {
        &&& ids_distinct(self.blocks_pairs())
        &&& forall|k: int|
            0 <= k < self.blocks_pairs().len() ==> (#[trigger] self.blocks_pairs()[k]).0
                == block_view_id(self.blocks_pairs()[k].1)
        &&& forall|k: int|
            0 <= k < self.blocks_pairs().len() && (#[trigger] self.blocks_pairs()[k]).1.number == 0
                ==> self.blocks_pairs()[k].0 == genesis_id()
        &&& forall|k: int|
            0 <= k < self.blocks_pairs().len() && (#[trigger] self.blocks_pairs()[k]).1.number > 0
                ==> self.blocks_map().contains_key(self.blocks_pairs()[k].1.parent)
                    && self.blocks_map()[self.blocks_pairs()[k].1.parent].number + 1
                    == self.blocks_pairs()[k].1.number
        &&& self.canonical@.len() >= 1
        &&& self.canonical@[0] == genesis_id()
        &&& self.canonical@.last() == self.best_block
        &&& forall|h: int|
            0 <= h < self.canonical@.len() ==> self.blocks_map().contains_key(
                #[trigger] self.canonical@[h],
            ) && self.blocks_map()[self.canonical@[h]].number == h
        &&& forall|h: int|
            1 <= h < self.canonical@.len() ==> self.blocks_map()[#[trigger] self.canonical@[h]].parent
                == self.canonical@[h - 1]
    }

    /// Finds the database index of the last entry for `id`, if any.
    fn find_block(&self, id: BlockId) -> (r: Option<usize>)
        ensures
            match r {
                Some(i) => i < self.blocks@.len() && self.blocks@[i as int].0 == id && forall|k: int|
                    i < k < self.blocks@.len() ==> self.blocks@[k].0 != id,
                None => forall|k: int| 0 <= k < self.blocks@.len() ==> self.blocks@[k].0 != id,
            },
    {
        let mut i: usize = self.blocks.len();
        while i > 0
            invariant
                i <= self.blocks@.len(),
                forall|k: int| i <= k < self.blocks@.len() ==> self.blocks@[k].0 != id,
            decreases i,
        {
            i = i - 1;
            if self.blocks[i].0.0 == id.0 {
                assert(self.blocks@[i as int].0 == id);
                return Some(i);
            }
        }
        None
    }

    /// Finds the database index of a key known to be present, and connects
    /// the entry to the database mapping.
    fn lookup(&self, id: BlockId) -> (i: usize)
        requires
            self.wf(),
            self.blocks_map().contains_key(id),
        ensures
            i < self.blocks@.len(),
            self.blocks@[i as int].0 == id,
            self.blocks@[i as int].1@ == self.blocks_map()[id],
    {
        match self.find_block(id) {
            Some(i) => {
                proof {
                    let bi = self.blocks@[i as int];
                    assert(self.blocks_pairs()[i as int] == (bi.0, bi.1@));
                    lemma_map_of_index(self.blocks_pairs(), i as int);
                }
                i
            },
            None => {
                proof {
                    lemma_map_of_contains(self.blocks_pairs(), id);
                    assert(forall|k: int|
                        0 <= k < self.blocks_pairs().len() ==> (#[trigger] self.blocks_pairs()[k]).0
                            == self.blocks@[k].0);
                }
                unreached()
            },
        }
    }

    /// Walks the ancestry of `start` down to height zero, returning the
    /// ids from `start` (inclusive) down to height one; the height-zero
    /// ancestor is genesis.
    fn walk_ancestry(&self, start: BlockId) -> (rev: Vec<BlockId>)
        requires
            self.wf(),
            self.blocks_map().contains_key(start),
        ensures
            rev@.len() == self.blocks_map()[start].number,
            forall|j: int|
                0 <= j < rev@.len() ==> self.blocks_map().contains_key(#[trigger] rev@[j])
                    && self.blocks_map()[rev@[j]].number as int == rev@.len() - j,
            forall|j: int|
                1 <= j < rev@.len() ==> self.blocks_map()[#[trigger] rev@[j - 1]].parent == rev@[j],
            rev@.len() > 0 ==> rev@[0] == start && self.blocks_map()[rev@.last()].parent
                == genesis_id(),
            rev@.len() == 0 ==> start == genesis_id(),
    {
        let ghost m = self.blocks_map();
        let mut rev: Vec<BlockId> = Vec::new();
        let mut cur: BlockId = start;
        let idx0 = self.lookup(cur);
        let mut cur_number: u64 = self.blocks[idx0].1.number;
        let ghost top: int = cur_number as int;
        while cur_number > 0
            invariant
                self.wf(),
                m == self.blocks_map(),
                m.contains_key(start),
                top == m[start].number,
                m.contains_key(cur),
                m[cur].number == cur_number,
                cur_number as int == top - rev@.len(),
                rev@.len() <= top,
                forall|j: int|
                    0 <= j < rev@.len() ==> m.contains_key(#[trigger] rev@[j]) && m[rev@[j]].number
                        as int == top - j,
                forall|j: int| 1 <= j < rev@.len() ==> m[#[trigger] rev@[j - 1]].parent == rev@[j],
                rev@.len() > 0 ==> rev@[0] == start && m[rev@.last()].parent == cur,
                rev@.len() == 0 ==> cur == start,
            decreases cur_number,
        {
            rev.push(cur);
            let i = self.lookup(cur);
            let parent = self.blocks[i].1.parent;
            proof {
                let bi = self.blocks@[i as int];
                assert(self.blocks_pairs()[i as int] == (bi.0, bi.1@));
                assert(self.blocks_pairs()[i as int].1 == m[cur]);
                assert(m.contains_key(m[cur].parent) && m[m[cur].parent].number + 1
                    == m[cur].number);
            }
            let pi = self.lookup(parent);
            cur = parent;
            cur_number = self.blocks[pi].1.number;
        }
        // `cur` is now the height-0 ancestor, which is genesis.
        proof {
            lemma_map_of_contains(self.blocks_pairs(), cur);
            let k = choose|k: int|
                0 <= k < self.blocks_pairs().len() && (#[trigger] self.blocks_pairs()[k]).0 == cur;
            lemma_map_of_index(self.blocks_pairs(), k);
            assert(self.blocks_pairs()[k].1 == m[cur]);
            assert(self.blocks_pairs()[k].1.number == 0);
            assert(cur == genesis_id());
        }
        rev
    }

    /// Records one query against the metrics counter.
    fn note_query(&self) {
        let v = self.calls_so_far.get();
        self.calls_so_far.set(v.wrapping_add(1));
    }

    /// Creates a mock node holding only the genesis block.
    pub fn new() -> (r: MockNode)
        ensures
            r.wf(),
            r.best_block == genesis_id(),
            r.canonical@ =~= seq![genesis_id()],
            r.blocks_map() =~= map![genesis_id() => crate::block::genesis_view()],
    {
        let g = Block::genesis();
        let gid = g.id();
        let ghost gv = g@;
        let mut blocks: Vec<(BlockId, Block)> = Vec::new();
        blocks.push((gid, g));
        let mut canonical: Vec<BlockId> = Vec::new();
        canonical.push(gid);
        let r = MockNode { blocks, canonical, best_block: gid, calls_so_far: core::cell::Cell::new(0) };
        proof {
            assert(r.blocks_pairs().len() == 1);
            assert(r.blocks_pairs()[0] == (r.blocks@[0].0, r.blocks@[0].1@));
            assert(r.blocks_pairs()[0] == (genesis_id(), gv));
            assert(r.blocks_pairs() =~= seq![(genesis_id(), gv)]);
            assert(r.blocks_pairs().drop_last() =~= Seq::<(BlockId, BlockView)>::empty());
            assert(map_of(r.blocks_pairs()) == map_of(r.blocks_pairs().drop_last()).insert(
                genesis_id(),
                gv,
            ));
            assert(r.blocks_map() =~= map![genesis_id() => gv]);
            assert(r.canonical@ =~= seq![genesis_id()]);
        }
        r
    }

    /// Adds a block built on the given parent to the database, and returns
    /// its id.  The canonical chain is unchanged: the new block is not
    /// automatically best.
    #[verifier::rlimit(100)]
    pub fn add_block(&mut self, parent_id: BlockId, body: Vec<Transaction>) -> (r: BlockId)
        requires
            old(self).wf(),
            old(self).blocks_map().contains_key(parent_id),
            old(self).blocks_map()[parent_id].number < u64::MAX,
        ensures
            final(self).wf(),
            final(self).canonical@ == old(self).canonical@,
            final(self).best_block == old(self).best_block,
            r == block_view_id(
                BlockView {
                    parent: parent_id,
                    number: (old(self).blocks_map()[parent_id].number + 1) as u64,
                    body: body@.map_values(|t: Transaction| t@),
                },
            ),
            final(self).blocks_map() == if old(self).blocks_map().contains_key(r) {
                old(self).blocks_map()
            } else {
                old(self).blocks_map().insert(
                    r,
                    BlockView {
                        parent: parent_id,
                        number: (old(self).blocks_map()[parent_id].number + 1) as u64,
                        body: body@.map_values(|t: Transaction| t@),
                    },
                )
            },
    {
        let idx = match self.find_block(parent_id) {
            Some(i) => i,
            None => {
                proof {
                    lemma_map_of_contains(self.blocks_pairs(), parent_id);
                    assert(forall|k: int|
                        0 <= k < self.blocks_pairs().len() ==> (#[trigger] self.blocks_pairs()[k]).0
                            == self.blocks@[k].0);
                }
                unreached()
            },
        };
        proof {
            lemma_map_of_index(self.blocks_pairs(), idx as int);
        }
        let number = self.blocks[idx].1.number + 1;
        let b = Block { parent: parent_id, number, body };
        let id = b.id();
        let ghost bv = b@;
        match self.find_block(id) {
            Some(_) => {
                proof {
                    lemma_map_of_contains(self.blocks_pairs(), id);
                    let k = choose|k: int|
                        0 <= k < self.blocks@.len() && self.blocks@[k].0 == id;
                    assert(self.blocks_pairs()[k].0 == id);
                }
                id
            },
            None => {
                proof {
                    lemma_map_of_contains(self.blocks_pairs(), id);
                    assert(forall|k: int|
                        0 <= k < self.blocks_pairs().len() ==> (#[trigger] self.blocks_pairs()[k]).0
                            == self.blocks@[k].0);
                    assert(!self.blocks_map().contains_key(id));
                }
                let ghost prev = *self;
                self.blocks.push((id, b));
                proof {
                    assert(self.blocks_pairs() =~= prev.blocks_pairs().push((id, bv)));
                    lemma_node_wf_after_push(prev, *self, id, bv);
                }
                id
            },
        }
    }

    /// Marks a known block as the node's best and recomputes the canonical
    /// chain by walking its ancestry; there is no longest-chain rule.
    pub fn set_best(&mut self, new_best: BlockId)
        requires
            old(self).wf(),
            old(self).blocks_map().contains_key(new_best),
        ensures
            final(self).wf(),
            final(self).best_block == new_best,
            final(self).blocks_map() == old(self).blocks_map(),
            final(self).blocks@ == old(self).blocks@,
            final(self).canonical@.len() == old(self).blocks_map()[new_best].number + 1,
    {
        let ghost m = self.blocks_map();
        let rev = self.walk_ancestry(new_best);
        let ghost top: int = rev@.len() as int;
        let mut canonical: Vec<BlockId> = Vec::new();
        canonical.push(Block::genesis().id());
        let mut remaining: usize = rev.len();
        while remaining > 0
            invariant
                remaining <= rev@.len(),
                canonical@.len() == 1 + rev@.len() - remaining,
                canonical@[0] == genesis_id(),
                forall|h: int|
                    1 <= h < canonical@.len() ==> canonical@[h] == rev@[rev@.len() - h],
            decreases remaining,
        {
            canonical.push(rev[remaining - 1]);
            remaining = remaining - 1;
        }
        self.canonical = canonical;
        self.best_block = new_best;
        proof {
            assert(self.blocks@ == old(self).blocks@);
            assert(self.blocks_pairs() == old(self).blocks_pairs());
            assert(old(self).canonical@[0] == genesis_id());
            assert(m.contains_key(genesis_id()) && m[genesis_id()].number == 0);
            assert(rev@.len() > 0 ==> rev@.last() == rev@[rev@.len() - 1]);
            assert(self.canonical@.len() == top + 1);
            assert forall|h: int|
                0 <= h < self.canonical@.len() implies m.contains_key(
                #[trigger] self.canonical@[h],
            ) && m[self.canonical@[h]].number == h by {
                if h >= 1 {
                    assert(self.canonical@[h] == rev@[rev@.len() - h]);
                }
            }
            assert forall|h: int|
                1 <= h < self.canonical@.len() implies m[#[trigger] self.canonical@[h]].parent
                == self.canonical@[h - 1] by {
                assert(self.canonical@[h] == rev@[rev@.len() - h]);
                if h >= 2 {
                    assert(self.canonical@[h - 1] == rev@[rev@.len() - (h - 1)]);
                    let j: int = rev@.len() - h + 1;
                    assert(1 <= j < rev@.len());
                    assert(m[rev@[j - 1]].parent == rev@[j]);
                    assert(rev@[j - 1] == rev@[rev@.len() - h]);
                } else {
                    assert(rev@[rev@.len() - h] == rev@.last());
                    assert(m[rev@.last()].parent == genesis_id());
                }
            }
            assert(self.canonical@.last() == new_best);
        }
    }

    /// Adds a block and also marks it as the node's best.
    pub fn add_block_as_best(&mut self, parent_id: BlockId, body: Vec<Transaction>) -> (r: BlockId)
        requires
            old(self).wf(),
            old(self).blocks_map().contains_key(parent_id),
            old(self).blocks_map()[parent_id].number < u64::MAX,
        ensures
            final(self).wf(),
            final(self).best_block == r,
            r == block_view_id(
                BlockView {
                    parent: parent_id,
                    number: (old(self).blocks_map()[parent_id].number + 1) as u64,
                    body: body@.map_values(|t: Transaction| t@),
                },
            ),
            final(self).blocks_map() == if old(self).blocks_map().contains_key(r) {
                old(self).blocks_map()
            } else {
                old(self).blocks_map().insert(
                    r,
                    BlockView {
                        parent: parent_id,
                        number: (old(self).blocks_map()[parent_id].number + 1) as u64,
                        body: body@.map_values(|t: Transaction| t@),
                    },
                )
            },
    {
        let id = self.add_block(parent_id, body);
        proof {
            lemma_map_of_contains(self.blocks_pairs(), id);
        }
        self.set_best(id);
        id
    }

    /// Reports how many times the node has been queried.
    pub fn how_many_queries(&self) -> u64 {
        self.calls_so_far.get()
    }
}

impl NodeEndpoint for MockNode {
    open spec fn best_at(&self, h: u64) -> Option<BlockId> {
        if (h as int) < self.canonical@.len() {
            Some(self.canonical@[h as int])
        } else {
            None
        }
    }

    open spec fn block_of(&self, id: BlockId) -> Option<BlockView> {
        map_get(self.blocks_map(), id)
    }

    fn best_block_at_height(&self, h: u64) -> (r: Option<BlockId>)
        ensures
            r == self.best_at(h),
    {
        self.note_query();
        if h < self.canonical.len() as u64 {
            Some(self.canonical[h as usize])
        } else {
            None
        }
    }

    fn entire_block(&self, id: &BlockId) -> (r: Option<Block>)
        ensures
            match r {
                Some(b) => self.block_of(*id) == Some(b@),
                None => self.block_of(*id) is None,
            },
    {
        match self.find_block(*id) {
            Some(i) => {
                proof {
                    assert(self.blocks_pairs()[i as int].0 == *id);
                    assert(forall|k: int|
                        (i as int) < k < self.blocks_pairs().len() ==> (
                        #[trigger] self.blocks_pairs()[k]).0 != *id);
                    crate::store::lemma_map_of_last(self.blocks_pairs(), i as int);
                }
                Some(clone_block(&self.blocks[i].1))
            },
            None => {
                proof {
                    lemma_map_of_contains(self.blocks_pairs(), *id);
                    assert(forall|k: int|
                        0 <= k < self.blocks_pairs().len() ==> (#[trigger] self.blocks_pairs()[k]).0
                            == self.blocks@[k].0);
                }
                None
            },
        }
    }
}

} // verus!
