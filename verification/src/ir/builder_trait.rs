//! What a builder adds to a visitor: changes to the function under the
//! cursor that keep its cross-links.

use crate::ir::arena::{BlockId, FunctionId, InstId, MemoryId};
use crate::ir::builder::Builder;
use crate::ir::inst::InstKindView;
use crate::ir::visitor_trait::VisitorTrait;
use vstd::prelude::*;

verus! {

/// A cursor that can change the function it is over. Every change leaves a
/// consistent and linked function consistent and linked.
pub trait BuilderTrait: VisitorTrait {
    /// The function is consistent and linked.
    spec fn is_ready(&self) -> bool;

    // ----- block -----

    /// Makes an empty block and puts it last in the block order.
    fn append_basic_block(&mut self) -> (id: BlockId)
        requires
            old(self).is_ready(),
        ensures
            id == old(self).fun_view().next_block_id(),
            final(self).fun_view() == old(self).fun_view().with_block_at(
                old(self).fun_view().blocks.len() as int,
            ),
            final(self).position() == old(self).position(),
            final(self).is_ready(),
    ;

    /// Makes an empty block and puts it in the block order right after
    /// `block_id`, which must stand there.
    fn insert_basic_block_after(&mut self, block_id: BlockId) -> (id: BlockId)
        requires
            old(self).is_ready(),
            old(self).fun_view().blocks.contains(block_id),
        ensures
            id == old(self).fun_view().next_block_id(),
            final(self).fun_view() == old(self).fun_view().with_block_at(
                old(self).fun_view().blocks.index_of(block_id) + 1,
            ),
            final(self).position() == old(self).position(),
            final(self).is_ready(),
    ;

    /// Takes `block_id`, which must stand in the block order, out of it.
    fn remove_basic_block(&mut self, block_id: BlockId)
        requires
            old(self).is_ready(),
            old(self).fun_view().blocks.contains(block_id),
        ensures
            final(self).fun_view() == old(self).fun_view().without_block_at(
                old(self).fun_view().blocks.index_of(block_id),
            ),
            final(self).position() == old(self).position(),
            final(self).is_ready(),
    ;

    // ----- inst -----

    /// Takes the instruction at the cursor out of its block and unties it.
    /// The cursor then stands at the instruction that followed it, or after
    /// the block's end where none did.
    fn remove_inst(&mut self)
        requires
            old(self).is_ready(),
            old(self).position().at_index(old(self).fun_view()),
            old(self).position().insert_point is At,
        ensures
            final(self).fun_view() == old(self).fun_view().unbuilt(old(self).position()),
            final(self).position().insert_block == old(self).position().insert_block,
            final(self).position().insert_point == old(self).fun_view().point_after_removal(
                old(self).position(),
            ),
            final(self).is_ready(),
    ;

    /// Makes every user of `from` read `to` in its place.
    fn replace_all_uses(&mut self, from: InstId, to: InstId)
        requires
            old(self).is_ready(),
            old(self).fun_view().has_inst(from),
            old(self).fun_view().has_inst(to),
        ensures
            final(self).fun_view() == if from == to {
                old(self).fun_view()
            } else {
                old(self).fun_view().with_uses_replaced(from, to)
            },
            final(self).position() == old(self).position(),
            final(self).is_ready(),
    ;

    // ----- inst -> value, inst -> effect -----

    fn build_eq(&mut self, v1: InstId, v2: InstId) -> (id: InstId)
        requires
            old(self).is_ready(),
            old(self).position().at_index(old(self).fun_view()),
            old(self).fun_view().has_inst(v1),
            old(self).fun_view().has_inst(v2),
        ensures
            id == old(self).fun_view().next_inst_id(),
            final(self).fun_view() == old(self).fun_view().built(old(self).position(), InstKindView::Eq(v1, v2)),
            final(self).position() == old(self).position(),
            final(self).is_ready(),
    ;

    fn build_ne(&mut self, v1: InstId, v2: InstId) -> (id: InstId)
        requires
            old(self).is_ready(),
            old(self).position().at_index(old(self).fun_view()),
            old(self).fun_view().has_inst(v1),
            old(self).fun_view().has_inst(v2),
        ensures
            id == old(self).fun_view().next_inst_id(),
            final(self).fun_view() == old(self).fun_view().built(old(self).position(), InstKindView::Ne(v1, v2)),
            final(self).position() == old(self).position(),
            final(self).is_ready(),
    ;

    fn build_lt(&mut self, v1: InstId, v2: InstId) -> (id: InstId)
        requires
            old(self).is_ready(),
            old(self).position().at_index(old(self).fun_view()),
            old(self).fun_view().has_inst(v1),
            old(self).fun_view().has_inst(v2),
        ensures
            id == old(self).fun_view().next_inst_id(),
            final(self).fun_view() == old(self).fun_view().built(old(self).position(), InstKindView::Lt(v1, v2)),
            final(self).position() == old(self).position(),
            final(self).is_ready(),
    ;

    fn build_le(&mut self, v1: InstId, v2: InstId) -> (id: InstId)
        requires
            old(self).is_ready(),
            old(self).position().at_index(old(self).fun_view()),
            old(self).fun_view().has_inst(v1),
            old(self).fun_view().has_inst(v2),
        ensures
            id == old(self).fun_view().next_inst_id(),
            final(self).fun_view() == old(self).fun_view().built(old(self).position(), InstKindView::Le(v1, v2)),
            final(self).position() == old(self).position(),
            final(self).is_ready(),
    ;

    fn build_add(&mut self, v1: InstId, v2: InstId) -> (id: InstId)
        requires
            old(self).is_ready(),
            old(self).position().at_index(old(self).fun_view()),
            old(self).fun_view().has_inst(v1),
            old(self).fun_view().has_inst(v2),
        ensures
            id == old(self).fun_view().next_inst_id(),
            final(self).fun_view() == old(self).fun_view().built(old(self).position(), InstKindView::Add(v1, v2)),
            final(self).position() == old(self).position(),
            final(self).is_ready(),
    ;

    fn build_sub(&mut self, v1: InstId, v2: InstId) -> (id: InstId)
        requires
            old(self).is_ready(),
            old(self).position().at_index(old(self).fun_view()),
            old(self).fun_view().has_inst(v1),
            old(self).fun_view().has_inst(v2),
        ensures
            id == old(self).fun_view().next_inst_id(),
            final(self).fun_view() == old(self).fun_view().built(old(self).position(), InstKindView::Sub(v1, v2)),
            final(self).position() == old(self).position(),
            final(self).is_ready(),
    ;

    fn build_mul(&mut self, v1: InstId, v2: InstId) -> (id: InstId)
        requires
            old(self).is_ready(),
            old(self).position().at_index(old(self).fun_view()),
            old(self).fun_view().has_inst(v1),
            old(self).fun_view().has_inst(v2),
        ensures
            id == old(self).fun_view().next_inst_id(),
            final(self).fun_view() == old(self).fun_view().built(old(self).position(), InstKindView::Mul(v1, v2)),
            final(self).position() == old(self).position(),
            final(self).is_ready(),
    ;

    fn build_div(&mut self, v1: InstId, v2: InstId) -> (id: InstId)
        requires
            old(self).is_ready(),
            old(self).position().at_index(old(self).fun_view()),
            old(self).fun_view().has_inst(v1),
            old(self).fun_view().has_inst(v2),
        ensures
            id == old(self).fun_view().next_inst_id(),
            final(self).fun_view() == old(self).fun_view().built(old(self).position(), InstKindView::Div(v1, v2)),
            final(self).position() == old(self).position(),
            final(self).is_ready(),
    ;

    fn build_load(&mut self, m1: MemoryId) -> (id: InstId)
        requires
            old(self).is_ready(),
            old(self).position().at_index(old(self).fun_view()),
            old(self).fun_view().has_memory(m1),
        ensures
            id == old(self).fun_view().next_inst_id(),
            final(self).fun_view() == old(self).fun_view().built(old(self).position(), InstKindView::Load(m1)),
            final(self).position() == old(self).position(),
            final(self).is_ready(),
    ;

    fn build_call(&mut self, fun_id: FunctionId, args: Vec<InstId>) -> (id: InstId)
        requires
            old(self).is_ready(),
            old(self).position().at_index(old(self).fun_view()),
            forall|i: int| 0 <= i < args@.len() ==> old(self).fun_view().has_inst(#[trigger] args@[i]),
        ensures
            id == old(self).fun_view().next_inst_id(),
            final(self).fun_view() == old(self).fun_view().built(old(self).position(), InstKindView::Call(fun_id, args@)),
            final(self).position() == old(self).position(),
            final(self).is_ready(),
    ;

    fn build_const(&mut self, n: u64) -> (id: InstId)
        requires
            old(self).is_ready(),
            old(self).position().at_index(old(self).fun_view()),
        ensures
            id == old(self).fun_view().next_inst_id(),
            final(self).fun_view() == old(self).fun_view().built(old(self).position(), InstKindView::Const(n)),
            final(self).position() == old(self).position(),
            final(self).is_ready(),
    ;

    fn build_conditional_branch(&mut self, v1: InstId, block1: BlockId, block2: BlockId) -> (id: InstId)
        requires
            old(self).is_ready(),
            old(self).position().at_index(old(self).fun_view()),
            old(self).fun_view().has_inst(v1),
            old(self).fun_view().has_block(block1),
            old(self).fun_view().has_block(block2),
        ensures
            id == old(self).fun_view().next_inst_id(),
            final(self).fun_view() == old(self).fun_view().built(old(self).position(), InstKindView::Br(v1, block1, block2)),
            final(self).position() == old(self).position(),
            final(self).is_ready(),
    ;

    fn build_unconditional_branch(&mut self, block1: BlockId) -> (id: InstId)
        requires
            old(self).is_ready(),
            old(self).position().at_index(old(self).fun_view()),
            old(self).fun_view().has_block(block1),
        ensures
            id == old(self).fun_view().next_inst_id(),
            final(self).fun_view() == old(self).fun_view().built(old(self).position(), InstKindView::Jmp(block1)),
            final(self).position() == old(self).position(),
            final(self).is_ready(),
    ;

    fn build_store(&mut self, m1: MemoryId, v1: InstId) -> (id: InstId)
        requires
            old(self).is_ready(),
            old(self).position().at_index(old(self).fun_view()),
            old(self).fun_view().has_memory(m1),
            old(self).fun_view().has_inst(v1),
        ensures
            id == old(self).fun_view().next_inst_id(),
            final(self).fun_view() == old(self).fun_view().built(old(self).position(), InstKindView::Store(m1, v1)),
            final(self).position() == old(self).position(),
            final(self).is_ready(),
    ;

    fn build_return(&mut self, v1: InstId) -> (id: InstId)
        requires
            old(self).is_ready(),
            old(self).position().at_index(old(self).fun_view()),
            old(self).fun_view().has_inst(v1),
        ensures
            id == old(self).fun_view().next_inst_id(),
            final(self).fun_view() == old(self).fun_view().built(old(self).position(), InstKindView::Ret(v1)),
            final(self).position() == old(self).position(),
            final(self).is_ready(),
    ;

    // ----- memory -----

    /// Makes a stack slot and returns its identifier.
    fn build_alloca(&mut self) -> (id: MemoryId)
        requires
            old(self).is_ready(),
        ensures
            id == old(self).fun_view().next_memory_id(),
            final(self).fun_view() == old(self).fun_view().with_memory(),
            final(self).position() == old(self).position(),
            final(self).is_ready(),
    ;
}

impl BuilderTrait for Builder {
    open spec fn is_ready(&self) -> bool {
        self.ready()
    }

    fn append_basic_block(&mut self) -> (id: BlockId) {
        Builder::append_basic_block(self)
    }

    fn insert_basic_block_after(&mut self, block_id: BlockId) -> (id: BlockId) {
        Builder::insert_basic_block_after(self, block_id)
    }

    fn remove_basic_block(&mut self, block_id: BlockId) {
        Builder::remove_basic_block(self, block_id)
    }

    fn remove_inst(&mut self) {
        Builder::remove_inst(self)
    }

    fn replace_all_uses(&mut self, from: InstId, to: InstId) {
        Builder::replace_all_uses(self, from, to)
    }

    fn build_eq(&mut self, v1: InstId, v2: InstId) -> (id: InstId) {
        Builder::build_eq(self, v1, v2)
    }

    fn build_ne(&mut self, v1: InstId, v2: InstId) -> (id: InstId) {
        Builder::build_ne(self, v1, v2)
    }

    fn build_lt(&mut self, v1: InstId, v2: InstId) -> (id: InstId) {
        Builder::build_lt(self, v1, v2)
    }

    fn build_le(&mut self, v1: InstId, v2: InstId) -> (id: InstId) {
        Builder::build_le(self, v1, v2)
    }

    fn build_add(&mut self, v1: InstId, v2: InstId) -> (id: InstId) {
        Builder::build_add(self, v1, v2)
    }

    fn build_sub(&mut self, v1: InstId, v2: InstId) -> (id: InstId) {
        Builder::build_sub(self, v1, v2)
    }

    fn build_mul(&mut self, v1: InstId, v2: InstId) -> (id: InstId) {
        Builder::build_mul(self, v1, v2)
    }

    fn build_div(&mut self, v1: InstId, v2: InstId) -> (id: InstId) {
        Builder::build_div(self, v1, v2)
    }

    fn build_load(&mut self, m1: MemoryId) -> (id: InstId) {
        Builder::build_load(self, m1)
    }

    fn build_call(&mut self, fun_id: FunctionId, args: Vec<InstId>) -> (id: InstId) {
        Builder::build_call(self, fun_id, args)
    }

    fn build_const(&mut self, n: u64) -> (id: InstId) {
        Builder::build_const(self, n)
    }

    fn build_conditional_branch(&mut self, v1: InstId, block1: BlockId, block2: BlockId) -> (id: InstId) {
        Builder::build_conditional_branch(self, v1, block1, block2)
    }

    fn build_unconditional_branch(&mut self, block1: BlockId) -> (id: InstId) {
        Builder::build_unconditional_branch(self, block1)
    }

    fn build_store(&mut self, m1: MemoryId, v1: InstId) -> (id: InstId) {
        Builder::build_store(self, m1, v1)
    }

    fn build_return(&mut self, v1: InstId) -> (id: InstId) {
        Builder::build_return(self, v1)
    }

    fn build_alloca(&mut self) -> (id: MemoryId) {
        Builder::build_alloca(self)
    }
}

} // verus!
