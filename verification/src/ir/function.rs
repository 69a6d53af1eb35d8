//! Functions: an ordered list of blocks over three arenas.

use crate::ir::arena::{
    block_arena_alloc, block_arena_get, block_arena_get_mut, block_arena_items, block_arena_new,
    block_arena_tag, inst_arena_alloc_with_id, inst_arena_get, inst_arena_get_mut,
    inst_arena_items, inst_arena_new, inst_arena_tag, memory_arena_alloc, memory_arena_get,
    memory_arena_get_mut, memory_arena_items, memory_arena_len, memory_arena_new,
    memory_arena_tag, BlockId, InstId, MemoryId,
};
use crate::ir::block::{Block, BlockView};
use crate::ir::inst::{Inst, InstView};
use crate::ir::memory::{Memory, MemoryView};
use crate::ty::Type;
use id_arena::Arena;
use vstd::prelude::*;
use vstd::seq_lib::seq_to_set_is_finite;
use vstd::set_lib::{lemma_int_range, lemma_len_subset, lemma_set_disjoint_lens, set_int_range};

verus! {

/// A function of the intermediate representation.
///
/// `blocks` lists the blocks in the order in which they are emitted. The
/// arenas keep every block, instruction and stack slot that was ever made:
/// taking one out of use leaves its slot, and its identifier, in place.
pub struct Function {
    name: String,
    ret_ty: Type,
    param_tys: Vec<Type>,
    blocks: Vec<BlockId>,
    block_arena: Arena<Block>,
    inst_arena: Arena<Inst>,
    memory_arena: Arena<Memory>,
}

/// What a function is, to a contract: its signature, its block order, and
/// for each arena the tag of its identifiers and its payloads in allocation
/// order.
pub struct FunctionView {
    pub name: Seq<char>,
    pub ret_ty: Type,
    pub param_tys: Seq<Type>,
    pub blocks: Seq<BlockId>,
    pub block_tag: u32,
    pub block_items: Seq<BlockView>,
    pub inst_tag: u32,
    pub inst_items: Seq<InstView>,
    pub memory_tag: u32,
    pub memory_items: Seq<MemoryView>,
}

impl FunctionView {
    /// Whether `id` names a block of this function.
    pub open spec fn has_block(self, id: BlockId) -> bool {
        id.arena == self.block_tag && id.index < self.block_items.len()
    }

    /// The block that `id` names.
    pub open spec fn block(self, id: BlockId) -> BlockView
        recommends
            self.has_block(id),
    {
        self.block_items[id.index as int]
    }

    /// Whether `id` names an instruction of this function.
    pub open spec fn has_inst(self, id: InstId) -> bool {
        id.arena == self.inst_tag && id.index < self.inst_items.len()
    }

    /// The instruction that `id` names.
    pub open spec fn inst(self, id: InstId) -> InstView
        recommends
            self.has_inst(id),
    {
        self.inst_items[id.index as int]
    }

    /// Whether `id` names a stack slot of this function.
    pub open spec fn has_memory(self, id: MemoryId) -> bool {
        id.arena == self.memory_tag && id.index < self.memory_items.len()
    }

    /// The stack slot that `id` names.
    pub open spec fn memory(self, id: MemoryId) -> MemoryView
        recommends
            self.has_memory(id),
    {
        self.memory_items[id.index as int]
    }

    /// The identifier that the next block made will have.
    pub open spec fn next_block_id(self) -> BlockId {
        BlockId { arena: self.block_tag, index: self.block_items.len() as usize }
    }

    /// The identifier that the next instruction made will have.
    pub open spec fn next_inst_id(self) -> InstId {
        InstId { arena: self.inst_tag, index: self.inst_items.len() as usize }
    }

    /// The identifier that the next stack slot made will have.
    pub open spec fn next_memory_id(self) -> MemoryId {
        MemoryId { arena: self.memory_tag, index: self.memory_items.len() as usize }
    }

    /// The function's storage is consistent:
    /// - the block order names blocks of this function, each at most once;
    /// - every block lists instructions of this function, and no instruction
    ///   stands at two places, in one block or in two;
    /// - every instruction records its own identifier;
    /// - the arenas' lengths fit a `usize`.
    pub open spec fn wf(self) -> bool {
        &&& self.block_items.len() <= usize::MAX
        &&& self.inst_items.len() <= usize::MAX
        &&& self.memory_items.len() <= usize::MAX
        &&& self.blocks.no_duplicates()
        &&& forall|i: int| 0 <= i < self.blocks.len() ==> self.has_block(#[trigger] self.blocks[i])
        &&& forall|b: BlockId, i: int|
            self.has_block(b) && 0 <= i < self.block(b).insts.len() ==> self.has_inst(
                #[trigger] self.block(b).insts[i],
            )
        &&& forall|b1: BlockId, i1: int, b2: BlockId, i2: int|
            #![trigger self.block(b1).insts[i1], self.block(b2).insts[i2]]
            self.has_block(b1) && 0 <= i1 < self.block(b1).insts.len() && self.has_block(b2) && 0
                <= i2 < self.block(b2).insts.len() && self.block(b1).insts[i1] == self.block(
                b2,
            ).insts[i2] ==> b1 == b2 && i1 == i2
        &&& forall|id: InstId| self.has_inst(id) ==> (#[trigger] self.inst(id)).id == id
    }

    /// The function with a new, empty block put into the block order at
    /// position `at`.
    pub open spec fn with_block_at(self, at: int) -> FunctionView {
        FunctionView {
            blocks: self.blocks.insert(at, self.next_block_id()),
            block_items: self.block_items.push(
                BlockView { insts: Seq::empty(), pred: Set::empty(), succ: Set::empty() },
            ),
            ..self
        }
    }

    /// The function with the new instruction `inst` put into block `b` at
    /// position `at`.
    pub open spec fn with_inst_at(self, b: BlockId, at: int, inst: InstView) -> FunctionView {
        FunctionView {
            block_items: self.block_items.update(
                b.index as int,
                BlockView { insts: self.block(b).insts.insert(at, self.next_inst_id()), ..self.block(b) },
            ),
            inst_items: self.inst_items.push(inst),
            ..self
        }
    }

    /// The function with a new stack slot that nothing touches.
    pub open spec fn with_memory(self) -> FunctionView {
        FunctionView {
            memory_items: self.memory_items.push(
                MemoryView { store: Set::empty(), load: Set::empty() },
            ),
            ..self
        }
    }

    /// The function with what stands in block `b` at position `at` taken out.
    pub open spec fn without_inst_at(self, b: BlockId, at: int) -> FunctionView {
        FunctionView {
            block_items: self.block_items.update(
                b.index as int,
                BlockView { insts: self.block(b).insts.remove(at), ..self.block(b) },
            ),
            ..self
        }
    }

    /// The function with what stands in the block order at position `at`
    /// taken out of it.
    pub open spec fn without_block_at(self, at: int) -> FunctionView {
        FunctionView { blocks: self.blocks.remove(at), ..self }
    }

    /// Taking a block out of the block order keeps the storage consistent,
    /// and the block no longer stands in the order.
    pub proof fn lemma_without_block_at(self, at: int)
        requires
            self.wf(),
            0 <= at < self.blocks.len(),
        ensures
            self.without_block_at(at).wf(),
            !self.without_block_at(at).blocks.contains(self.blocks[at]),
    {
        let g = self.without_block_at(at);
        assert forall|i: int| 0 <= i < g.blocks.len() implies g.has_block(#[trigger] g.blocks[i])
            && g.blocks[i] != self.blocks[at] by {
            let i0 = if i < at { i } else { i + 1 };
            assert(g.blocks[i] == self.blocks[i0]);
        }
        assert(g.blocks.no_duplicates()) by {
            assert forall|i: int, j: int|
                0 <= i < g.blocks.len() && 0 <= j < g.blocks.len() && i != j implies g.blocks[i]
                != g.blocks[j] by {
                let i0 = if i < at { i } else { i + 1 };
                let j0 = if j < at { j } else { j + 1 };
                assert(g.blocks[i] == self.blocks[i0]);
                assert(g.blocks[j] == self.blocks[j0]);
            }
        }
        assert forall|b: BlockId, i: int|
            g.has_block(b) && 0 <= i < g.block(b).insts.len() implies g.has_inst(
            #[trigger] g.block(b).insts[i],
        ) by {
            assert(self.has_inst(self.block(b).insts[i]));
        }
        assert forall|b1: BlockId, i1: int, b2: BlockId, i2: int|
            #![trigger g.block(b1).insts[i1], g.block(b2).insts[i2]]
            g.has_block(b1) && 0 <= i1 < g.block(b1).insts.len() && g.has_block(b2) && 0 <= i2
                < g.block(b2).insts.len() && g.block(b1).insts[i1] == g.block(b2).insts[i2]
                implies b1 == b2 && i1 == i2 by {
            assert(self.block(b1).insts[i1] == self.block(b2).insts[i2]);
        }
        assert forall|x: InstId| g.has_inst(x) implies (#[trigger] g.inst(x)).id == x by {
            assert(self.has_inst(x));
            assert(self.inst(x).id == x);
        }
    }

    /// A new block in the block order keeps the storage consistent.
    pub proof fn lemma_with_block_at(self, at: int)
        requires
            self.wf(),
            0 <= at <= self.blocks.len(),
            self.block_items.len() < usize::MAX,
        ensures
            self.with_block_at(at).wf(),
    {
        let g = self.with_block_at(at);
        let id = self.next_block_id();
        assert forall|b: BlockId| self.has_block(b) implies g.has_block(b) && g.block(b)
            == self.block(b) by {}
        assert forall|b: BlockId| g.has_block(b) && !self.has_block(b) implies b == id
            && g.block(b).insts.len() == 0 by {}
        assert forall|i: int| 0 <= i < g.blocks.len() implies g.has_block(
            #[trigger] g.blocks[i],
        ) by {
            if i < at {
                assert(g.blocks[i] == self.blocks[i]);
            } else if i > at {
                assert(g.blocks[i] == self.blocks[i - 1]);
            }
        }
        assert(g.blocks.no_duplicates()) by {
            assert forall|i: int, j: int|
                0 <= i < g.blocks.len() && 0 <= j < g.blocks.len() && i != j implies g.blocks[i]
                != g.blocks[j] by {
                let i0 = if i < at { i } else { i - 1 };
                let j0 = if j < at { j } else { j - 1 };
                if i != at {
                    assert(g.blocks[i] == self.blocks[i0]);
                    assert(self.has_block(self.blocks[i0]));
                }
                if j != at {
                    assert(g.blocks[j] == self.blocks[j0]);
                    assert(self.has_block(self.blocks[j0]));
                }
            }
        }
        assert forall|b: BlockId, i: int|
            g.has_block(b) && 0 <= i < g.block(b).insts.len() implies g.has_inst(
            #[trigger] g.block(b).insts[i],
        ) by {
            assert(self.has_block(b));
            assert(self.has_inst(self.block(b).insts[i]));
        }
        assert forall|b1: BlockId, i1: int, b2: BlockId, i2: int|
            #![trigger g.block(b1).insts[i1], g.block(b2).insts[i2]]
            g.has_block(b1) && 0 <= i1 < g.block(b1).insts.len() && g.has_block(b2) && 0 <= i2
                < g.block(b2).insts.len() && g.block(b1).insts[i1] == g.block(b2).insts[i2]
                implies b1 == b2 && i1 == i2 by {
            assert(self.has_block(b1) && self.has_block(b2));
            assert(self.block(b1).insts[i1] == self.block(b2).insts[i2]);
        }
        assert forall|x: InstId| g.has_inst(x) implies (#[trigger] g.inst(x)).id == x by {
            assert(self.has_inst(x));
            assert(self.inst(x).id == x);
        }
    }

    /// A new instruction that records its own identifier keeps the storage
    /// consistent, wherever it is put.
    pub proof fn lemma_with_inst_at(self, b: BlockId, at: int, inst: InstView)
        requires
            self.wf(),
            self.has_block(b),
            0 <= at <= self.block(b).insts.len(),
            inst.id == self.next_inst_id(),
            self.inst_items.len() < usize::MAX,
        ensures
            self.with_inst_at(b, at, inst).wf(),
    {
        let g = self.with_inst_at(b, at, inst);
        let id = self.next_inst_id();
        assert(!self.has_inst(id));
        assert forall|x: InstId| self.has_inst(x) implies g.has_inst(x) && g.inst(x) == self.inst(
            x,
        ) by {}
        assert(g.inst(id) == inst);
        assert forall|c: BlockId| g.has_block(c) <==> self.has_block(c) by {}
        assert forall|c: BlockId| g.has_block(c) && c != b implies g.block(c) == self.block(c) by {
            assert(c.index != b.index);
        }
        assert(g.block(b).insts == self.block(b).insts.insert(at, id));
        assert forall|c: BlockId, i: int|
            g.has_block(c) && 0 <= i < g.block(c).insts.len() implies g.has_inst(
            #[trigger] g.block(c).insts[i],
        ) by {
            if c == b {
                if i < at {
                    assert(g.block(c).insts[i] == self.block(c).insts[i]);
                } else if i > at {
                    assert(g.block(c).insts[i] == self.block(c).insts[i - 1]);
                }
            } else {
                assert(g.block(c).insts[i] == self.block(c).insts[i]);
            }
        }
        assert forall|b1: BlockId, i1: int, b2: BlockId, i2: int|
            #![trigger g.block(b1).insts[i1], g.block(b2).insts[i2]]
            g.has_block(b1) && 0 <= i1 < g.block(b1).insts.len() && g.has_block(b2) && 0 <= i2
                < g.block(b2).insts.len() && g.block(b1).insts[i1] == g.block(b2).insts[i2]
                implies b1 == b2 && i1 == i2 by {
            let j1 = if b1 == b && i1 > at { i1 - 1 } else { i1 };
            let j2 = if b2 == b && i2 > at { i2 - 1 } else { i2 };
            let new1 = b1 == b && i1 == at;
            let new2 = b2 == b && i2 == at;
            if !new1 {
                assert(g.block(b1).insts[i1] == self.block(b1).insts[j1]);
                assert(self.has_inst(self.block(b1).insts[j1]));
            }
            if !new2 {
                assert(g.block(b2).insts[i2] == self.block(b2).insts[j2]);
                assert(self.has_inst(self.block(b2).insts[j2]));
            }
            if !new1 && !new2 {
                assert(b1 == b2 && j1 == j2);
            }
        }
        assert forall|x: InstId| g.has_inst(x) implies (#[trigger] g.inst(x)).id == x by {
            if x != id {
                assert(self.has_inst(x));
            }
        }
    }

    /// Taking an instruction out of a block keeps the storage consistent.
    pub proof fn lemma_without_inst_at(self, b: BlockId, at: int)
        requires
            self.wf(),
            self.has_block(b),
            0 <= at < self.block(b).insts.len(),
        ensures
            self.without_inst_at(b, at).wf(),
    {
        let g = self.without_inst_at(b, at);
        assert forall|c: BlockId| g.has_block(c) <==> self.has_block(c) by {}
        assert forall|c: BlockId| g.has_block(c) && c != b implies g.block(c) == self.block(c) by {
            assert(c.index != b.index);
        }
        assert(g.block(b).insts == self.block(b).insts.remove(at));
        assert forall|c: BlockId, i: int|
            g.has_block(c) && 0 <= i < g.block(c).insts.len() implies g.has_inst(
            #[trigger] g.block(c).insts[i],
        ) by {
            let j = if c == b && i >= at { i + 1 } else { i };
            assert(g.block(c).insts[i] == self.block(c).insts[j]);
        }
        assert forall|b1: BlockId, i1: int, b2: BlockId, i2: int|
            #![trigger g.block(b1).insts[i1], g.block(b2).insts[i2]]
            g.has_block(b1) && 0 <= i1 < g.block(b1).insts.len() && g.has_block(b2) && 0 <= i2
                < g.block(b2).insts.len() && g.block(b1).insts[i1] == g.block(b2).insts[i2]
                implies b1 == b2 && i1 == i2 by {
            let j1 = if b1 == b && i1 >= at { i1 + 1 } else { i1 };
            let j2 = if b2 == b && i2 >= at { i2 + 1 } else { i2 };
            assert(g.block(b1).insts[i1] == self.block(b1).insts[j1]);
            assert(g.block(b2).insts[i2] == self.block(b2).insts[j2]);
            assert(b1 == b2 && j1 == j2);
        }
        assert forall|x: InstId| g.has_inst(x) implies (#[trigger] g.inst(x)).id == x by {
            assert(self.has_inst(x));
            assert(self.inst(x).id == x);
        }
    }

    /// The number of instructions that stand in the blocks of the block
    /// order, from position `from` on.
    pub open spec fn count_from(self, from: int) -> nat
        decreases self.blocks.len() - from,
    {
        if 0 <= from < self.blocks.len() {
            self.block(self.blocks[from]).insts.len() + self.count_from(from + 1)
        } else {
            0
        }
    }

    /// The number of instructions in the function.
    pub open spec fn count(self) -> nat {
        self.count_from(0)
    }

    /// The arena slots of the instructions that stand in block `b`, in the
    /// block's order.
    pub open spec fn slots_of(self, b: BlockId) -> Seq<int> {
        Seq::new(self.block(b).insts.len(), |i: int| self.block(b).insts[i].index as int)
    }

    /// The arena slots of the instructions that stand in the blocks of the
    /// block order, from position `from` on.
    pub open spec fn slots_from(self, from: int) -> Set<int>
        decreases self.blocks.len() - from,
    {
        if 0 <= from < self.blocks.len() {
            self.slots_of(self.blocks[from]).to_set() + self.slots_from(from + 1)
        } else {
            Set::empty()
        }
    }

    /// A slot counted from `from` on belongs to an instruction that stands
    /// in one of those blocks.
    pub proof fn lemma_slots_from(self, from: int, k: int)
        requires
            0 <= from,
            self.slots_from(from).contains(k),
        ensures
            exists|j: int, i: int|
                from <= j < self.blocks.len() && 0 <= i < self.block(self.blocks[j]).insts.len()
                    && (#[trigger] self.block(self.blocks[j]).insts[i]).index == k,
        decreases self.blocks.len() - from,
    {
        if from < self.blocks.len() {
            let here = self.slots_of(self.blocks[from]);
            if here.to_set().contains(k) {
                let i = choose|i: int| 0 <= i < here.len() && here[i] == k;
                assert(self.block(self.blocks[from]).insts[i].index == k);
            } else {
                self.lemma_slots_from(from + 1, k);
            }
        }
    }

    /// In a consistent function no instruction stands at two places, so
    /// that there are at most as many instructions in the blocks, from any
    /// position of the block order on, as the arena has slots.
    pub proof fn lemma_count_fits(self, from: int)
        requires
            self.wf(),
            0 <= from,
        ensures
            self.slots_from(from).finite(),
            self.slots_from(from).len() == self.count_from(from),
            self.slots_from(from).subset_of(set_int_range(0, self.inst_items.len() as int)),
            self.count_from(from) <= self.inst_items.len(),
        decreases self.blocks.len() - from,
    {
        let all = set_int_range(0, self.inst_items.len() as int);
        lemma_int_range(0, self.inst_items.len() as int);
        if from < self.blocks.len() {
            let b = self.blocks[from];
            let here = self.slots_of(b);
            let rest = self.slots_from(from + 1);
            self.lemma_count_fits(from + 1);
            assert(self.has_block(b));
            assert(here.no_duplicates()) by {
                assert forall|i: int, j: int|
                    0 <= i < here.len() && 0 <= j < here.len() && i != j implies here[i]
                    != here[j] by {
                    let x = self.block(b).insts[i];
                    let y = self.block(b).insts[j];
                    assert(self.has_inst(x) && self.has_inst(y));
                    if here[i] == here[j] {
                        assert(x == y);
                    }
                }
            }
            here.unique_seq_to_set();
            seq_to_set_is_finite(here);
            assert(here.to_set().subset_of(all)) by {
                assert forall|k: int| here.to_set().contains(k) implies all.contains(k) by {
                    let i = choose|i: int| 0 <= i < here.len() && here[i] == k;
                    assert(self.has_inst(self.block(b).insts[i]));
                }
            }
            assert(here.to_set().disjoint(rest)) by {
                assert forall|k: int| !(here.to_set().contains(k) && rest.contains(k)) by {
                    if here.to_set().contains(k) && rest.contains(k) {
                        let i = choose|i: int| 0 <= i < here.len() && here[i] == k;
                        self.lemma_slots_from(from + 1, k);
                        let (j, i2) = choose|j: int, i2: int|
                            from + 1 <= j < self.blocks.len() && 0 <= i2 < self.block(
                                self.blocks[j],
                            ).insts.len() && (#[trigger] self.block(
                                self.blocks[j],
                            ).insts[i2]).index == k;
                        let x = self.block(b).insts[i];
                        let y = self.block(self.blocks[j]).insts[i2];
                        assert(self.has_block(self.blocks[j]));
                        assert(self.has_inst(x) && self.has_inst(y));
                        assert(x == y);
                        assert(self.blocks[j] == b);
                    }
                }
            }
            lemma_set_disjoint_lens(here.to_set(), rest);
            lemma_len_subset(self.slots_from(from), all);
        } else {
            lemma_len_subset(self.slots_from(from), all);
        }
    }
}

impl View for Function {
    type V = FunctionView;

    closed spec fn view(&self) -> FunctionView {
        FunctionView {
            name: self.name@,
            ret_ty: self.ret_ty,
            param_tys: self.param_tys@,
            blocks: self.blocks@,
            block_tag: block_arena_tag(self.block_arena),
            block_items: block_arena_items(self.block_arena).map_values(|b: Block| b@),
            inst_tag: inst_arena_tag(self.inst_arena),
            inst_items: inst_arena_items(self.inst_arena).map_values(|i: Inst| i@),
            memory_tag: memory_arena_tag(self.memory_arena),
            memory_items: memory_arena_items(self.memory_arena).map_values(|m: Memory| m@),
        }
    }
}

impl Function {
    /// A declaration: a function without blocks, instructions or stack slots.
    pub fn new(name: String, ret_ty: Type, param_tys: Vec<Type>) -> (f: Function)
        ensures
            f@.name == name@,
            f@.ret_ty == ret_ty,
            f@.param_tys == param_tys@,
            f@.blocks.len() == 0,
            f@.block_items.len() == 0,
            f@.inst_items.len() == 0,
            f@.memory_items.len() == 0,
            f@.wf(),
    {
        Function {
            name,
            ret_ty,
            param_tys,
            blocks: Vec::new(),
            block_arena: block_arena_new(),
            inst_arena: inst_arena_new(),
            memory_arena: memory_arena_new(),
        }
    }

    /// The function with another name and type: the blocks, instructions and
    /// stack slots stay.
    pub fn with_signature(self, name: String, ret_ty: Type, param_tys: Vec<Type>) -> (f: Function)
        ensures
            f@ == (FunctionView { name: name@, ret_ty, param_tys: param_tys@, ..self@ }),
    {
        Function {
            name,
            ret_ty,
            param_tys,
            blocks: self.blocks,
            block_arena: self.block_arena,
            inst_arena: self.inst_arena,
            memory_arena: self.memory_arena,
        }
    }

    /// The name and type of the function, taken out of it.
    pub fn into_signature(self) -> (r: (String, Type, Vec<Type>))
        ensures
            r.0@ == self@.name,
            r.1 == self@.ret_ty,
            r.2@ == self@.param_tys,
    {
        (self.name, self.ret_ty, self.param_tys)
    }

    /// Whether the function has no body.
    pub fn is_declaration(&self) -> (r: bool)
        ensures
            r == (self@.blocks.len() == 0),
    {
        self.blocks.is_empty()
    }

    // ----- accessor -----

    pub fn name(&self) -> (r: &str)
        ensures
            r@ == self@.name,
    {
        self.name.as_str()
    }

    pub fn ret_ty(&self) -> (r: &Type)
        ensures
            *r == self@.ret_ty,
    {
        &self.ret_ty
    }

    pub fn param_tys(&self) -> (r: &[Type])
        ensures
            r@ == self@.param_tys,
    {
        self.param_tys.as_slice()
    }

    /// The blocks, in the order in which they are emitted.
    pub fn blocks(&self) -> (r: &[BlockId])
        ensures
            r@ == self@.blocks,
    {
        self.blocks.as_slice()
    }

    /// The arena that holds the blocks.
    pub fn block_arena(&self) -> (r: &Arena<Block>)
        ensures
            block_arena_items(*r).map_values(|b: Block| b@) == self@.block_items,
            block_arena_tag(*r) == self@.block_tag,
    {
        &self.block_arena
    }

    /// The arena that holds the instructions.
    pub fn inst_arena(&self) -> (r: &Arena<Inst>)
        ensures
            inst_arena_items(*r).map_values(|i: Inst| i@) == self@.inst_items,
            inst_arena_tag(*r) == self@.inst_tag,
    {
        &self.inst_arena
    }

    /// The arena that holds the stack slots.
    pub fn memory_arena(&self) -> (r: &Arena<Memory>)
        ensures
            memory_arena_items(*r).map_values(|m: Memory| m@) == self@.memory_items,
            memory_arena_tag(*r) == self@.memory_tag,
    {
        &self.memory_arena
    }

    /// The number of stack slots.
    pub fn memory_count(&self) -> (r: usize)
        ensures
            r == self@.memory_items.len(),
    {
        memory_arena_len(&self.memory_arena)
    }

    /// Whether `id` names a block of this function.
    pub fn has_block(&self, id: BlockId) -> (r: bool)
        ensures
            r == self@.has_block(id),
    {
        block_arena_get(&self.block_arena, id).is_some()
    }

    /// Whether `id` names an instruction of this function.
    pub fn has_inst(&self, id: InstId) -> (r: bool)
        ensures
            r == self@.has_inst(id),
    {
        inst_arena_get(&self.inst_arena, id).is_some()
    }

    /// Whether `id` names a stack slot of this function.
    pub fn has_memory(&self, id: MemoryId) -> (r: bool)
        ensures
            r == self@.has_memory(id),
    {
        memory_arena_get(&self.memory_arena, id).is_some()
    }

    /// The block that `id` names.
    pub fn block(&self, id: BlockId) -> (r: &Block)
        requires
            self@.has_block(id),
        ensures
            r@ == self@.block(id),
    {
        block_arena_get(&self.block_arena, id).unwrap()
    }

    /// The instruction that `id` names.
    pub fn inst(&self, id: InstId) -> (r: &Inst)
        requires
            self@.has_inst(id),
        ensures
            r@ == self@.inst(id),
    {
        inst_arena_get(&self.inst_arena, id).unwrap()
    }

    /// The stack slot that `id` names.
    pub fn memory(&self, id: MemoryId) -> (r: &Memory)
        requires
            self@.has_memory(id),
        ensures
            r@ == self@.memory(id),
    {
        memory_arena_get(&self.memory_arena, id).unwrap()
    }

    /// A mutable borrow of the block that `id` names. What the caller leaves
    /// in it is the block's new value; nothing else changes.
    pub fn block_mut(&mut self, id: BlockId) -> (r: &mut Block)
        requires
            old(self)@.has_block(id),
        ensures
            r@ == old(self)@.block(id),
            final(self)@ == (FunctionView {
                block_items: old(self)@.block_items.update(id.index as int, final(r)@),
                ..old(self)@
            }),
    {
        let ghost before = block_arena_items(self.block_arena);
        let r = block_arena_get_mut(&mut self.block_arena, id);
        proof {
            assert(before.update(id.index as int, *final(r)).map_values(|b: Block| b@)
                =~= before.map_values(|b: Block| b@).update(id.index as int, final(r)@));
        }
        r
    }

    /// A mutable borrow of the instruction that `id` names. What the caller
    /// leaves in it is the instruction's new value; nothing else changes.
    pub fn inst_mut(&mut self, id: InstId) -> (r: &mut Inst)
        requires
            old(self)@.has_inst(id),
        ensures
            r@ == old(self)@.inst(id),
            final(self)@ == (FunctionView {
                inst_items: old(self)@.inst_items.update(id.index as int, final(r)@),
                ..old(self)@
            }),
    {
        let ghost before = inst_arena_items(self.inst_arena);
        let r = inst_arena_get_mut(&mut self.inst_arena, id);
        proof {
            assert(before.update(id.index as int, *final(r)).map_values(|i: Inst| i@)
                =~= before.map_values(|i: Inst| i@).update(id.index as int, final(r)@));
        }
        r
    }

    /// A mutable borrow of the stack slot that `id` names. What the caller
    /// leaves in it is the slot's new value; nothing else changes.
    pub fn memory_mut(&mut self, id: MemoryId) -> (r: &mut Memory)
        requires
            old(self)@.has_memory(id),
        ensures
            r@ == old(self)@.memory(id),
            final(self)@ == (FunctionView {
                memory_items: old(self)@.memory_items.update(id.index as int, final(r)@),
                ..old(self)@
            }),
    {
        let ghost before = memory_arena_items(self.memory_arena);
        let r = memory_arena_get_mut(&mut self.memory_arena, id);
        proof {
            assert(before.update(id.index as int, *final(r)).map_values(|m: Memory| m@)
                =~= before.map_values(|m: Memory| m@).update(id.index as int, final(r)@));
        }
        r
    }

    // ----- block -----

    /// The position of `block_id` in the block order, if it is there.
    pub fn block_position(&self, block_id: BlockId) -> (r: Option<usize>)
        ensures
            match r {
                Some(i) => i < self@.blocks.len() && self@.blocks[i as int] == block_id && forall|
                    j: int,
                | 0 <= j < i ==> self@.blocks[j] != block_id,
                None => !self@.blocks.contains(block_id),
            },
    {
        let mut i: usize = 0;
        while i < self.blocks.len()
            invariant
                i <= self.blocks@.len(),
                forall|j: int| 0 <= j < i ==> self.blocks@[j] != block_id,
            decreases self.blocks@.len() - i,
        {
            if self.blocks[i] == block_id {
                return Some(i);
            }
            i += 1;
        }
        None
    }

    /// Makes an empty block in the arena.
    fn new_block(&mut self) -> (id: BlockId)
        ensures
            id == old(self)@.next_block_id(),
            id.index == old(self)@.block_items.len(),
            old(self)@.block_items.len() < usize::MAX,
            final(self)@ == (FunctionView {
                block_items: old(self)@.block_items.push(
                    BlockView { insts: Seq::empty(), pred: Set::empty(), succ: Set::empty() },
                ),
                ..old(self)@
            }),
    {
        let ghost before = block_arena_items(self.block_arena);
        let block = Block::new();
        let id = block_arena_alloc(&mut self.block_arena, block);
        proof {
            assert(before.push(block).map_values(|b: Block| b@) =~= before.map_values(
                |b: Block| b@,
            ).push(block@));
        }
        id
    }

    /// Makes an empty block and puts it last in the block order.
    pub fn append_basic_block(&mut self) -> (id: BlockId)
        requires
            old(self)@.wf(),
        ensures
            id == old(self)@.next_block_id(),
            final(self)@ == old(self)@.with_block_at(old(self)@.blocks.len() as int),
            final(self)@.wf(),
    {
        let block_id = self.new_block();
        self.blocks.push(block_id);
        proof {
            old(self)@.lemma_with_block_at(old(self)@.blocks.len() as int);
            assert(self@.blocks =~= old(self)@.with_block_at(old(self)@.blocks.len() as int).blocks);
        }
        block_id
    }

    /// Makes an empty block and puts it in the block order right after
    /// `block_id`, which must stand there.
    pub fn insert_basic_block_after(&mut self, block_id: BlockId) -> (id: BlockId)
        requires
            old(self)@.wf(),
            old(self)@.blocks.contains(block_id),
        ensures
            id == old(self)@.next_block_id(),
            final(self)@ == old(self)@.with_block_at(old(self)@.blocks.index_of(block_id) + 1),
            final(self)@.wf(),
    {
        let index = self.block_position(block_id).unwrap();
        proof {
            let k = old(self)@.blocks.index_of(block_id);
            assert(old(self)@.blocks[k] == block_id);
            assert(k == index);
        }
        let new_id = self.new_block();
        assert(index < self.blocks.len());
        self.blocks.insert(index + 1, new_id);
        proof {
            old(self)@.lemma_with_block_at(index + 1);
        }
        new_id
    }

    /// Takes `block_id`, which must stand in the block order, out of it. The
    /// arena keeps the block.
    pub fn remove_basic_block(&mut self, block_id: BlockId)
        requires
            old(self)@.wf(),
            old(self)@.blocks.contains(block_id),
        ensures
            final(self)@ == old(self)@.without_block_at(old(self)@.blocks.index_of(block_id)),
            !final(self)@.blocks.contains(block_id),
            final(self)@.wf(),
    {
        let index = self.block_position(block_id).unwrap();
        proof {
            let k = old(self)@.blocks.index_of(block_id);
            assert(old(self)@.blocks[k] == block_id);
            assert(k == index);
        }
        self.blocks.remove(index);
        proof {
            old(self)@.lemma_without_block_at(index as int);
        }
    }

    // ----- inst -----

    /// Takes out of block `block_id` what stands at position `index`. The
    /// arena keeps the instruction.
    pub fn remove_inst(&mut self, block_id: BlockId, index: usize)
        requires
            old(self)@.wf(),
            old(self)@.has_block(block_id),
            index < old(self)@.block(block_id).insts.len(),
        ensures
            final(self)@ == old(self)@.without_inst_at(block_id, index as int),
            final(self)@.wf(),
    {
        let block = self.block_mut(block_id);
        block.remove_inst(index);
        proof {
            old(self)@.lemma_without_inst_at(block_id, index as int);
        }
    }

    /// Makes an instruction from the identifier that it will have, and puts
    /// it into block `block_id` at position `index`. `f` must accept that
    /// identifier and record it in the instruction.
    pub fn insert_inst_with_id<F: FnOnce(InstId) -> Inst>(
        &mut self,
        block_id: BlockId,
        index: usize,
        f: F,
    ) -> (id: InstId)
        requires
            old(self)@.wf(),
            old(self)@.has_block(block_id),
            index <= old(self)@.block(block_id).insts.len(),
            call_requires(f, (old(self)@.next_inst_id(),)),
            forall|inst: Inst|
                call_ensures(f, (old(self)@.next_inst_id(),), inst) ==> inst@.id == old(
                    self,
                )@.next_inst_id(),
        ensures
            id == old(self)@.next_inst_id(),
            final(self)@.inst_items.len() == old(self)@.inst_items.len() + 1,
            old(self)@.inst_items.len() < usize::MAX,
            exists|inst: Inst|
                call_ensures(f, (id,), inst) && final(self)@ == old(self)@.with_inst_at(
                    block_id,
                    index as int,
                    inst@,
                ),
            final(self)@.wf(),
    {
        let ghost before = inst_arena_items(self.inst_arena);
        let inst_id = inst_arena_alloc_with_id(&mut self.inst_arena, f);
        let ghost inst = inst_arena_items(self.inst_arena).last();
        proof {
            let now = inst_arena_items(self.inst_arena);
            assert(now =~= now.drop_last().push(now.last()));
            assert(before.push(inst).map_values(|i: Inst| i@) =~= before.map_values(
                |i: Inst| i@,
            ).push(inst@));
        }
        let block = self.block_mut(block_id);
        block.insert_inst(index, inst_id);
        proof {
            old(self)@.lemma_with_inst_at(block_id, index as int, inst@);
            assert(self@ == old(self)@.with_inst_at(block_id, index as int, inst@));
        }
        inst_id
    }

    /// Puts the instruction `inst`, which must record the identifier that
    /// it will get, into block `block_id` at position `index`.
    pub fn insert_inst(&mut self, block_id: BlockId, index: usize, inst: Inst) -> (id: InstId)
        requires
            old(self)@.wf(),
            old(self)@.has_block(block_id),
            index <= old(self)@.block(block_id).insts.len(),
            inst@.id == old(self)@.next_inst_id(),
        ensures
            id == old(self)@.next_inst_id(),
            final(self)@ == old(self)@.with_inst_at(block_id, index as int, inst@),
            final(self)@.wf(),
    {
        let make = move |_id: InstId| -> (r: Inst)
            ensures
                r == inst,
            { inst };
        self.insert_inst_with_id(block_id, index, make)
    }

    // ----- memory -----

    /// Makes a stack slot that nothing touches yet.
    pub fn append_memory(&mut self) -> (id: MemoryId)
        ensures
            id == old(self)@.next_memory_id(),
            id.index == old(self)@.memory_items.len(),
            old(self)@.memory_items.len() < usize::MAX,
            final(self)@ == old(self)@.with_memory(),
    {
        let ghost before = memory_arena_items(self.memory_arena);
        let memory = Memory::new();
        let id = memory_arena_alloc(&mut self.memory_arena, memory);
        proof {
            assert(before.push(memory).map_values(|m: Memory| m@) =~= before.map_values(
                |m: Memory| m@,
            ).push(memory@));
        }
        id
    }
}

/// An identifier that names part of a function: a block, an instruction or
/// a stack slot.
pub trait AccessFunction: Sized {
    /// What the identifier names.
    type Output;

    /// Whether the identifier names part of `fun`.
    spec fn names_part_of(&self, fun: &Function) -> bool;

    /// Whether `part` is the part of `fun` that the identifier names.
    spec fn names(&self, fun: &Function, part: &Self::Output) -> bool;

    /// Whether `after` is `before` with `part` in place of what the
    /// identifier names, and nothing else changed.
    spec fn put(&self, before: &Function, after: &Function, part: &Self::Output) -> bool;

    /// The part of `fun` that the identifier names.
    fn get<'a>(&self, fun: &'a Function) -> (r: &'a Self::Output)
        requires
            self.names_part_of(fun),
        ensures
            self.names(fun, r),
    ;

    /// A mutable borrow of the part of `fun` that the identifier names. What
    /// the caller leaves in it is the part's new value; nothing else changes.
    fn get_mut<'a>(&self, fun: &'a mut Function) -> (r: &'a mut Self::Output)
        requires
            self.names_part_of(old(fun)),
        ensures
            self.names(old(fun), r),
            self.put(old(fun), final(fun), final(r)),
    ;
}

impl AccessFunction for BlockId {
    type Output = Block;

    open spec fn names_part_of(&self, fun: &Function) -> bool {
        fun@.has_block(*self)
    }

    open spec fn names(&self, fun: &Function, part: &Block) -> bool {
        part@ == fun@.block(*self)
    }

    open spec fn put(&self, before: &Function, after: &Function, part: &Block) -> bool {
        after@ == (FunctionView {
            block_items: before@.block_items.update(self.index as int, part@),
            ..before@
        })
    }

    fn get<'a>(&self, fun: &'a Function) -> (r: &'a Block) {
        fun.block(*self)
    }

    fn get_mut<'a>(&self, fun: &'a mut Function) -> (r: &'a mut Block) {
        fun.block_mut(*self)
    }
}

impl AccessFunction for InstId {
    type Output = Inst;

    open spec fn names_part_of(&self, fun: &Function) -> bool {
        fun@.has_inst(*self)
    }

    open spec fn names(&self, fun: &Function, part: &Inst) -> bool {
        part@ == fun@.inst(*self)
    }

    open spec fn put(&self, before: &Function, after: &Function, part: &Inst) -> bool {
        after@ == (FunctionView {
            inst_items: before@.inst_items.update(self.index as int, part@),
            ..before@
        })
    }

    fn get<'a>(&self, fun: &'a Function) -> (r: &'a Inst) {
        fun.inst(*self)
    }

    fn get_mut<'a>(&self, fun: &'a mut Function) -> (r: &'a mut Inst) {
        fun.inst_mut(*self)
    }
}

impl AccessFunction for MemoryId {
    type Output = Memory;

    open spec fn names_part_of(&self, fun: &Function) -> bool {
        fun@.has_memory(*self)
    }

    open spec fn names(&self, fun: &Function, part: &Memory) -> bool {
        part@ == fun@.memory(*self)
    }

    open spec fn put(&self, before: &Function, after: &Function, part: &Memory) -> bool {
        after@ == (FunctionView {
            memory_items: before@.memory_items.update(self.index as int, part@),
            ..before@
        })
    }

    fn get<'a>(&self, fun: &'a Function) -> (r: &'a Memory) {
        fun.memory(*self)
    }

    fn get_mut<'a>(&self, fun: &'a mut Function) -> (r: &'a mut Memory) {
        fun.memory_mut(*self)
    }
}

impl Function {
    /// The block, instruction or stack slot that `id` names.
    pub fn get<Id: AccessFunction>(&self, id: Id) -> (r: &Id::Output)
        requires
            id.names_part_of(self),
        ensures
            id.names(self, r),
    {
        id.get(self)
    }

    /// A mutable borrow of the block, instruction or stack slot that `id`
    /// names. What the caller leaves in it is the part's new value; nothing
    /// else changes.
    pub fn get_mut<Id: AccessFunction>(&mut self, id: Id) -> (r: &mut Id::Output)
        requires
            id.names_part_of(old(self)),
        ensures
            id.names(old(self), r),
            id.put(old(self), final(self), final(r)),
    {
        id.get_mut(self)
    }
}

} // verus!
