//! What a visitor and a builder have in common: a cursor over a function.

use crate::ir::arena::{BlockId, InstId};
use crate::ir::builder::Builder;
use crate::ir::function::{Function, FunctionView};
use crate::ir::visitor::{
    cleared, next_in, prev_in, step_backward, step_forward, Cursor, InsertPoint, Visitor,
};
use vstd::prelude::*;

verus! {

/// A cursor over a function: a position that can be set and read, and that
/// steps from block to block and, within a block, from instruction to
/// instruction. No step changes the function.
pub trait VisitorTrait {
    /// The function that the cursor is over.
    spec fn fun_view(&self) -> FunctionView;

    /// Where the cursor stands.
    spec fn position(&self) -> Cursor;

    fn function(&self) -> (f: &Function)
        ensures
            f@ == self.fun_view(),
    ;

    fn get_insert_block(&self) -> (r: Option<BlockId>)
        ensures
            r == self.position().insert_block,
    ;

    fn get_insert_point(&self) -> (r: InsertPoint)
        ensures
            r == self.position().insert_point,
    ;

    fn clear_position(&mut self)
        ensures
            final(self).fun_view() == old(self).fun_view(),
            final(self).position() == cleared(),
    ;

    fn position_before(&mut self, block_id: BlockId)
        ensures
            final(self).fun_view() == old(self).fun_view(),
            final(self).position() == (Cursor {
                insert_block: Some(block_id),
                insert_point: InsertPoint::Before,
            }),
    ;

    fn position_at(&mut self, block_id: BlockId, inst_id: InstId)
        ensures
            final(self).fun_view() == old(self).fun_view(),
            final(self).position() == (Cursor {
                insert_block: Some(block_id),
                insert_point: InsertPoint::At(inst_id),
            }),
    ;

    fn position_at_end(&mut self, block_id: BlockId)
        ensures
            final(self).fun_view() == old(self).fun_view(),
            final(self).position() == (Cursor {
                insert_block: Some(block_id),
                insert_point: InsertPoint::After,
            }),
    ;

    /// The block and the position in it that the cursor names.
    fn get_insert_index(&self) -> (r: (BlockId, usize))
        requires
            self.position().at_index(self.fun_view()),
        ensures
            Some(r.0) == self.position().insert_block,
            r.1 == self.position().index(self.fun_view()),
    ;

    /// Puts the cursor at the instruction that stands at `index` in block
    /// `block_id`.
    fn position_at_index(&mut self, block_id: BlockId, index: usize)
        requires
            old(self).fun_view().has_block(block_id),
            index < old(self).fun_view().block(block_id).insts.len(),
        ensures
            final(self).fun_view() == old(self).fun_view(),
            final(self).position() == (Cursor {
                insert_block: Some(block_id),
                insert_point: InsertPoint::At(
                    old(self).fun_view().block(block_id).insts[index as int],
                ),
            }),
    ;

    /// Moves to the start of the next block in the block order, or of the
    /// first block where the cursor stands nowhere. Where there is no such
    /// block, the cursor is cleared.
    fn next_block(&mut self) -> (r: Option<BlockId>)
        ensures
            final(self).fun_view() == old(self).fun_view(),
            r == next_in(old(self).fun_view().blocks, old(self).position().insert_block),
            final(self).position() == match r {
                Some(b) => Cursor { insert_block: Some(b), insert_point: InsertPoint::Before },
                None => cleared(),
            },
    ;

    /// Moves to the end of the previous block in the block order, or of the
    /// last block where the cursor stands nowhere. Where there is no such
    /// block, the cursor is cleared.
    fn prev_block(&mut self) -> (r: Option<BlockId>)
        ensures
            final(self).fun_view() == old(self).fun_view(),
            r == prev_in(old(self).fun_view().blocks, old(self).position().insert_block),
            final(self).position() == match r {
                Some(b) => Cursor { insert_block: Some(b), insert_point: InsertPoint::After },
                None => cleared(),
            },
    ;

    /// Steps to the next instruction of the cursor's block and returns it.
    /// Past the last one the cursor stays in the block, after its end, and
    /// `None` is returned.
    fn next_inst(&mut self) -> (r: Option<InstId>)
        ensures
            final(self).fun_view() == old(self).fun_view(),
            final(self).position().insert_block == old(self).position().insert_block,
            match old(self).position().insert_block {
                Some(b) if old(self).fun_view().has_block(b) => (
                    r,
                    final(self).position().insert_point,
                ) == step_forward(
                    old(self).fun_view().block(b).insts,
                    old(self).position().insert_point,
                ),
                _ => r is None && final(self).position().insert_point == old(
                    self,
                ).position().insert_point,
            },
    ;

    /// Steps to the previous instruction of the cursor's block and returns
    /// it. Before the first one the cursor stays in the block, before its
    /// start, and `None` is returned.
    fn prev_inst(&mut self) -> (r: Option<InstId>)
        ensures
            final(self).fun_view() == old(self).fun_view(),
            final(self).position().insert_block == old(self).position().insert_block,
            match old(self).position().insert_block {
                Some(b) if old(self).fun_view().has_block(b) => (
                    r,
                    final(self).position().insert_point,
                ) == step_backward(
                    old(self).fun_view().block(b).insts,
                    old(self).position().insert_point,
                ),
                _ => r is None && final(self).position().insert_point == old(
                    self,
                ).position().insert_point,
            },
    ;
}

impl<'a> VisitorTrait for Visitor<'a> {
    open spec fn fun_view(&self) -> FunctionView {
        self.fun()
    }

    open spec fn position(&self) -> Cursor {
        self.cursor()
    }

    fn function(&self) -> (f: &Function) {
        Visitor::function(self)
    }

    fn get_insert_block(&self) -> (r: Option<BlockId>) {
        Visitor::get_insert_block(self)
    }

    fn get_insert_point(&self) -> (r: InsertPoint) {
        Visitor::get_insert_point(self)
    }

    fn clear_position(&mut self) {
        Visitor::clear_position(self)
    }

    fn position_before(&mut self, block_id: BlockId) {
        Visitor::position_before(self, block_id)
    }

    fn position_at(&mut self, block_id: BlockId, inst_id: InstId) {
        Visitor::position_at(self, block_id, inst_id)
    }

    fn position_at_end(&mut self, block_id: BlockId) {
        Visitor::position_at_end(self, block_id)
    }

    fn get_insert_index(&self) -> (r: (BlockId, usize)) {
        Visitor::get_insert_index(self)
    }

    fn position_at_index(&mut self, block_id: BlockId, index: usize) {
        Visitor::position_at_index(self, block_id, index)
    }

    fn next_block(&mut self) -> (r: Option<BlockId>) {
        Visitor::next_block(self)
    }

    fn prev_block(&mut self) -> (r: Option<BlockId>) {
        Visitor::prev_block(self)
    }

    fn next_inst(&mut self) -> (r: Option<InstId>) {
        Visitor::next_inst(self)
    }

    fn prev_inst(&mut self) -> (r: Option<InstId>) {
        Visitor::prev_inst(self)
    }
}

impl VisitorTrait for Builder {
    open spec fn fun_view(&self) -> FunctionView {
        self.fun()
    }

    open spec fn position(&self) -> Cursor {
        self.cursor()
    }

    fn function(&self) -> (f: &Function) {
        Builder::function(self)
    }

    fn get_insert_block(&self) -> (r: Option<BlockId>) {
        Builder::get_insert_block(self)
    }

    fn get_insert_point(&self) -> (r: InsertPoint) {
        Builder::get_insert_point(self)
    }

    fn clear_position(&mut self) {
        Builder::clear_position(self)
    }

    fn position_before(&mut self, block_id: BlockId) {
        Builder::position_before(self, block_id)
    }

    fn position_at(&mut self, block_id: BlockId, inst_id: InstId) {
        Builder::position_at(self, block_id, inst_id)
    }

    fn position_at_end(&mut self, block_id: BlockId) {
        Builder::position_at_end(self, block_id)
    }

    fn get_insert_index(&self) -> (r: (BlockId, usize)) {
        Builder::get_insert_index(self)
    }

    fn position_at_index(&mut self, block_id: BlockId, index: usize) {
        Builder::position_at_index(self, block_id, index)
    }

    fn next_block(&mut self) -> (r: Option<BlockId>) {
        Builder::next_block(self)
    }

    fn prev_block(&mut self) -> (r: Option<BlockId>) {
        Builder::prev_block(self)
    }

    fn next_inst(&mut self) -> (r: Option<InstId>) {
        Builder::next_inst(self)
    }

    fn prev_inst(&mut self) -> (r: Option<InstId>) {
        Builder::prev_inst(self)
    }
}

} // verus!
