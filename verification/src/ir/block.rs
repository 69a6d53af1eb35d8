//! Basic blocks.

use crate::ir::arena::{BlockId, InstId};
use crate::ir::idset::IdSet;
use vstd::prelude::*;

verus! {

/// A basic block: its instructions in order, and the blocks that branch to
/// it and that it branches to.
pub struct Block {
    insts: Vec<InstId>,
    pred: IdSet<BlockId>,
    succ: IdSet<BlockId>,
}

/// What a block is, to a contract.
pub struct BlockView {
    pub insts: Seq<InstId>,
    pub pred: Set<BlockId>,
    pub succ: Set<BlockId>,
}

impl View for Block {
    type V = BlockView;

    closed spec fn view(&self) -> BlockView {
        BlockView { insts: self.insts@, pred: self.pred@, succ: self.succ@ }
    }
}

impl Block {
    /// A block without instructions, predecessors or successors.
    pub fn new() -> (b: Block)
        ensures
            b@ == (BlockView { insts: Seq::empty(), pred: Set::empty(), succ: Set::empty() }),
    {
        Block { insts: Vec::new(), pred: IdSet::new(), succ: IdSet::new() }
    }

    /// The instructions, in order.
    pub fn insts(&self) -> (r: &[InstId])
        ensures
            r@ == self@.insts,
    {
        self.insts.as_slice()
    }

    /// The blocks that branch to this one.
    pub fn pred(&self) -> (r: &IdSet<BlockId>)
        ensures
            r@ == self@.pred,
    {
        &self.pred
    }

    /// The blocks that this one branches to.
    pub fn succ(&self) -> (r: &IdSet<BlockId>)
        ensures
            r@ == self@.succ,
    {
        &self.succ
    }

    // ----- inst -----

    /// The first position at which `inst_id` stands in the block, if any.
    pub fn inst_position(&self, inst_id: InstId) -> (r: Option<usize>)
        ensures
            match r {
                Some(i) => i < self@.insts.len() && self@.insts[i as int] == inst_id && forall|j: int|
                    0 <= j < i ==> self@.insts[j] != inst_id,
                None => !self@.insts.contains(inst_id),
            },
    {
        let mut i: usize = 0;
        while i < self.insts.len()
            invariant
                i <= self.insts@.len(),
                forall|j: int| 0 <= j < i ==> self.insts@[j] != inst_id,
            decreases self.insts@.len() - i,
        {
            if self.insts[i] == inst_id {
                return Some(i);
            }
            i += 1;
        }
        None
    }

    /// Puts `inst_id` at position `index`; what stood there and after moves
    /// one place on.
    pub fn insert_inst(&mut self, index: usize, inst_id: InstId)
        requires
            index <= old(self)@.insts.len(),
        ensures
            final(self)@ == (BlockView {
                insts: old(self)@.insts.insert(index as int, inst_id),
                ..old(self)@
            }),
    {
        self.insts.insert(index, inst_id);
    }

    /// Takes out what stands at position `index`.
    pub fn remove_inst(&mut self, index: usize)
        requires
            index < old(self)@.insts.len(),
        ensures
            final(self)@ == (BlockView { insts: old(self)@.insts.remove(index as int), ..old(self)@ }),
    {
        self.insts.remove(index);
    }

    // ----- pred -----

    /// Records `block_id` as a predecessor.
    pub fn append_pred(&mut self, block_id: BlockId)
        ensures
            final(self)@ == (BlockView { pred: old(self)@.pred.insert(block_id), ..old(self)@ }),
    {
        self.pred.insert(block_id);
    }

    /// Forgets `block_id` as a predecessor.
    pub fn remove_pred(&mut self, block_id: BlockId)
        ensures
            final(self)@ == (BlockView { pred: old(self)@.pred.remove(block_id), ..old(self)@ }),
    {
        self.pred.remove(block_id);
    }

    // ----- succ -----

    /// Records `block_id` as a successor.
    pub fn append_succ(&mut self, block_id: BlockId)
        ensures
            final(self)@ == (BlockView { succ: old(self)@.succ.insert(block_id), ..old(self)@ }),
    {
        self.succ.insert(block_id);
    }

    /// Forgets `block_id` as a successor.
    pub fn remove_succ(&mut self, block_id: BlockId)
        ensures
            final(self)@ == (BlockView { succ: old(self)@.succ.remove(block_id), ..old(self)@ }),
    {
        self.succ.remove(block_id);
    }
}

} // verus!
