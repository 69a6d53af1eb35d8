//! The builder: a cursor over a function that it owns and may change.
//!
//! Every instruction is made and removed here, so that both ends of each
//! cross-link change together.

use crate::ir::arena::{BlockId, FunctionId, InstId, MemoryId};
use crate::ir::block::BlockView;
use crate::ir::function::{Function, FunctionView};
use crate::ir::inst::{swapped, Inst, InstKind, InstKindView, InstView};
use crate::ir::visitor::{cleared, next_in, prev_in, step_backward, step_forward, Cursor, InsertPoint};
use vstd::prelude::*;

verus! {

/// A cursor over a function that it owns and may change.
pub struct Builder {
    function: Function,
    cursor: Cursor,
}

impl Builder {
    /// The function that is being built.
    pub closed spec fn fun(&self) -> FunctionView {
        self.function@
    }

    /// The builder's position.
    pub closed spec fn cursor(&self) -> Cursor {
        self.cursor
    }

    /// The function is consistent and linked.
    pub open spec fn ready(&self) -> bool {
        self.fun().wf() && self.fun().linked()
    }

    /// A builder of `function` that stands nowhere.
    pub fn new(function: Function) -> (b: Builder)
        ensures
            b.fun() == function@,
            b.cursor() == cleared(),
    {
        Builder { function, cursor: Cursor::new() }
    }

    /// Gives the function back.
    pub fn retrieve_function(self) -> (f: Function)
        ensures
            f@ == self.fun(),
    {
        self.function
    }

    /// The function as it is now.
    pub fn function(&self) -> (f: &Function)
        ensures
            f@ == self.fun(),
    {
        &self.function
    }

    // ----- position -----

    pub fn get_insert_block(&self) -> (r: Option<BlockId>)
        ensures
            r == self.cursor().insert_block,
    {
        self.cursor.insert_block
    }

    pub fn get_insert_point(&self) -> (r: InsertPoint)
        ensures
            r == self.cursor().insert_point,
    {
        self.cursor.insert_point
    }

    pub fn clear_position(&mut self)
        ensures
            final(self).fun() == old(self).fun(),
            final(self).cursor() == cleared(),
    {
        self.cursor.clear_position();
    }

    pub fn position_before(&mut self, block_id: BlockId)
        ensures
            final(self).fun() == old(self).fun(),
            final(self).cursor() == (Cursor {
                insert_block: Some(block_id),
                insert_point: InsertPoint::Before,
            }),
    {
        self.cursor.position_before(block_id);
    }

    pub fn position_at(&mut self, block_id: BlockId, inst_id: InstId)
        ensures
            final(self).fun() == old(self).fun(),
            final(self).cursor() == (Cursor {
                insert_block: Some(block_id),
                insert_point: InsertPoint::At(inst_id),
            }),
    {
        self.cursor.position_at(block_id, inst_id);
    }

    pub fn position_at_end(&mut self, block_id: BlockId)
        ensures
            final(self).fun() == old(self).fun(),
            final(self).cursor() == (Cursor {
                insert_block: Some(block_id),
                insert_point: InsertPoint::After,
            }),
    {
        self.cursor.position_at_end(block_id);
    }

    /// The block and the position in it that the cursor names.
    pub fn get_insert_index(&self) -> (r: (BlockId, usize))
        requires
            self.cursor().at_index(self.fun()),
        ensures
            Some(r.0) == self.cursor().insert_block,
            r.1 == self.cursor().index(self.fun()),
            r.1 <= self.fun().block(r.0).insts.len(),
            self.cursor().insert_point is After <==> r.1 == self.fun().block(r.0).insts.len(),
    {
        self.cursor.get_insert_index(&self.function)
    }

    /// Puts the cursor at the instruction that stands at `index` in block
    /// `block_id`.
    pub fn position_at_index(&mut self, block_id: BlockId, index: usize)
        requires
            old(self).fun().has_block(block_id),
            index < old(self).fun().block(block_id).insts.len(),
        ensures
            final(self).fun() == old(self).fun(),
            final(self).cursor() == (Cursor {
                insert_block: Some(block_id),
                insert_point: InsertPoint::At(old(self).fun().block(block_id).insts[index as int]),
            }),
    {
        self.cursor.position_at_index(&self.function, block_id, index);
    }

    /// Moves to the start of the next block in the block order, or of the
    /// first block where the cursor stands nowhere. Where there is no such
    /// block, the cursor is cleared.
    pub fn next_block(&mut self) -> (r: Option<BlockId>)
        ensures
            final(self).fun() == old(self).fun(),
            r == next_in(old(self).fun().blocks, old(self).cursor().insert_block),
            final(self).cursor() == match r {
                Some(b) => Cursor { insert_block: Some(b), insert_point: InsertPoint::Before },
                None => cleared(),
            },
    {
        self.cursor.next_block(&self.function)
    }

    /// Moves to the end of the previous block in the block order, or of the
    /// last block where the cursor stands nowhere. Where there is no such
    /// block, the cursor is cleared.
    pub fn prev_block(&mut self) -> (r: Option<BlockId>)
        ensures
            final(self).fun() == old(self).fun(),
            r == prev_in(old(self).fun().blocks, old(self).cursor().insert_block),
            final(self).cursor() == match r {
                Some(b) => Cursor { insert_block: Some(b), insert_point: InsertPoint::After },
                None => cleared(),
            },
    {
        self.cursor.prev_block(&self.function)
    }

    /// Steps to the next instruction of the cursor's block and returns it.
    /// Past the last one the cursor stays in the block, after its end, and
    /// `None` is returned.
    pub fn next_inst(&mut self) -> (r: Option<InstId>)
        ensures
            final(self).fun() == old(self).fun(),
            final(self).cursor().insert_block == old(self).cursor().insert_block,
            match old(self).cursor().insert_block {
                Some(b) if old(self).fun().has_block(b) => (r, final(self).cursor().insert_point)
                    == step_forward(old(self).fun().block(b).insts, old(self).cursor().insert_point),
                _ => r is None && final(self).cursor().insert_point == old(
                    self,
                ).cursor().insert_point,
            },
    {
        self.cursor.next_inst(&self.function)
    }

    /// Steps to the previous instruction of the cursor's block and returns
    /// it. Before the first one the cursor stays in the block, before its
    /// start, and `None` is returned.
    pub fn prev_inst(&mut self) -> (r: Option<InstId>)
        ensures
            final(self).fun() == old(self).fun(),
            final(self).cursor().insert_block == old(self).cursor().insert_block,
            match old(self).cursor().insert_block {
                Some(b) if old(self).fun().has_block(b) => (r, final(self).cursor().insert_point)
                    == step_backward(
                    old(self).fun().block(b).insts,
                    old(self).cursor().insert_point,
                ),
                _ => r is None && final(self).cursor().insert_point == old(
                    self,
                ).cursor().insert_point,
            },
    {
        self.cursor.prev_inst(&self.function)
    }

    // ----- block -----

    /// Makes an empty block and puts it last in the block order.
    pub fn append_basic_block(&mut self) -> (id: BlockId)
        requires
            old(self).ready(),
        ensures
            id == old(self).fun().next_block_id(),
            final(self).fun() == old(self).fun().with_block_at(old(self).fun().blocks.len() as int),
            final(self).cursor() == old(self).cursor(),
            final(self).ready(),
    {
        let id = self.function.append_basic_block();
        proof {
            old(self).fun().lemma_same_but_blocks(self.fun());
        }
        id
    }

    /// Makes an empty block and puts it in the block order right after
    /// `block_id`, which must stand there.
    pub fn insert_basic_block_after(&mut self, block_id: BlockId) -> (id: BlockId)
        requires
            old(self).ready(),
            old(self).fun().blocks.contains(block_id),
        ensures
            id == old(self).fun().next_block_id(),
            final(self).fun() == old(self).fun().with_block_at(
                old(self).fun().blocks.index_of(block_id) + 1,
            ),
            final(self).cursor() == old(self).cursor(),
            final(self).ready(),
    {
        let id = self.function.insert_basic_block_after(block_id);
        proof {
            old(self).fun().lemma_same_but_blocks(self.fun());
        }
        id
    }

    /// Takes `block_id`, which must stand in the block order, out of it.
    pub fn remove_basic_block(&mut self, block_id: BlockId)
        requires
            old(self).ready(),
            old(self).fun().blocks.contains(block_id),
        ensures
            final(self).fun() == old(self).fun().without_block_at(
                old(self).fun().blocks.index_of(block_id),
            ),
            !final(self).fun().blocks.contains(block_id),
            final(self).cursor() == old(self).cursor(),
            final(self).ready(),
    {
        self.function.remove_basic_block(block_id);
        proof {
            old(self).fun().lemma_same_but_blocks(self.fun());
        }
    }

    // ----- inst -----

    /// Records `id` as a user of each of the values `ops`.
    fn tie_operands(&mut self, ops: &Vec<InstId>, id: InstId)
        requires
            old(self).fun().inst_items.len() <= usize::MAX,
            forall|i: int| 0 <= i < ops@.len() ==> old(self).fun().has_inst(#[trigger] ops@[i]),
        ensures
            final(self).fun() == old(self).fun().with_user(ops@, id),
            final(self).cursor() == old(self).cursor(),
    {
        let ghost g = self.fun();
        let mut n: usize = 0;
        assert(self.fun().inst_items =~= g.with_user(ops@.subrange(0, 0), id).inst_items);
        while n < ops.len()
            invariant
                n <= ops@.len(),
                g.inst_items.len() <= usize::MAX,
                forall|i: int| 0 <= i < ops@.len() ==> g.has_inst(#[trigger] ops@[i]),
                self.fun() == g.with_user(ops@.subrange(0, n as int), id),
                self.cursor() == old(self).cursor(),
            decreases ops@.len() - n,
        {
            let v = ops[n];
            assert(g.has_inst(v));
            let ghost before = self.fun();
            let inst = self.function.inst_mut(v);
            inst.append_use(id);
            proof {
                let done = ops@.subrange(0, n as int);
                let more = ops@.subrange(0, n + 1);
                assert(more =~= done.push(v));
                assert forall|i: int| 0 <= i < g.inst_items.len() implies self.fun().inst_items[i]
                    =~~= g.with_user(more, id).inst_items[i] by {
                    let x = g.inst_id_at(i);
                    assert(before.inst_items[i] == if done.contains(x) {
                        InstView { uses: g.inst_items[i].uses.insert(id), ..g.inst_items[i] }
                    } else {
                        g.inst_items[i]
                    });
                    if x == v {
                        assert(more[n as int] == x);
                        assert(i == v.index);
                        assert(self.fun().inst_items[i].uses =~= g.inst_items[i].uses.insert(id));
                    } else {
                        assert(self.fun().inst_items[i] == before.inst_items[i]);
                        assert(i != v.index);
                        if done.contains(x) {
                            let j = choose|j: int| 0 <= j < done.len() && done[j] == x;
                            assert(more[j] == x);
                        }
                        if more.contains(x) {
                            let j = choose|j: int| 0 <= j < more.len() && more[j] == x;
                            assert(done[j] == x);
                        }
                    }
                }
                assert(self.fun().inst_items =~= g.with_user(more, id).inst_items);
            }
            n += 1;
        }
        assert(ops@.subrange(0, n as int) =~= ops@);
    }

    /// Records `id` at the slot that an instruction of kind `kind` loads from
    /// or stores to.
    fn tie_memory(&mut self, kind: &InstKind, id: InstId)
        requires
            old(self).fun().memory_items.len() <= usize::MAX,
            forall|m: MemoryId| kind@.loads(m) || kind@.stores(m) ==> old(self).fun().has_memory(m),
        ensures
            final(self).fun() == old(self).fun().with_slot_user(kind@, id),
            final(self).cursor() == old(self).cursor(),
    {
        let ghost g = self.fun();
        match kind {
            InstKind::Load(m) => {
                assert(kind@.loads(*m));
                let memory = self.function.memory_mut(*m);
                memory.append_load(id);
                proof {
                    assert forall|i: int| 0 <= i < g.memory_items.len() implies self.fun().memory_items[i]
                        =~~= g.with_slot_user(kind@, id).memory_items[i] by {
                        if g.memory_id_at(i) == *m {
                            assert(i == m.index);
                        } else {
                            assert(i != m.index);
                        }
                    }
                    assert(self.fun().memory_items =~= g.with_slot_user(kind@, id).memory_items);
                }
            },
            InstKind::Store(m, _) => {
                assert(kind@.stores(*m));
                let memory = self.function.memory_mut(*m);
                memory.append_store(id);
                proof {
                    assert forall|i: int| 0 <= i < g.memory_items.len() implies self.fun().memory_items[i]
                        =~~= g.with_slot_user(kind@, id).memory_items[i] by {
                        if g.memory_id_at(i) == *m {
                            assert(i == m.index);
                        } else {
                            assert(i != m.index);
                        }
                    }
                    assert(self.fun().memory_items =~= g.with_slot_user(kind@, id).memory_items);
                }
            },
            _ => {
                proof {
                    assert(self.fun().memory_items =~= g.with_slot_user(kind@, id).memory_items);
                }
            },
        }
    }

    /// Records an edge from block `b` to each of the blocks `targets`, at
    /// both ends.
    fn tie_targets(&mut self, b: BlockId, targets: &Vec<BlockId>)
        requires
            old(self).fun().block_items.len() <= usize::MAX,
            old(self).fun().has_block(b),
            forall|i: int|
                0 <= i < targets@.len() ==> old(self).fun().has_block(#[trigger] targets@[i]),
        ensures
            final(self).fun() == old(self).fun().with_edges(b, targets@),
            final(self).cursor() == old(self).cursor(),
    {
        let ghost g = self.fun();
        let mut n: usize = 0;
        proof {
            assert(targets@.subrange(0, 0).to_set() =~= Set::<BlockId>::empty());
            assert forall|i: int| 0 <= i < g.block_items.len() implies g.block_items[i]
                =~~= g.with_edges(b, targets@.subrange(0, 0)).block_items[i] by {
                assert(g.block_items[i].succ.union(Set::<BlockId>::empty())
                    =~= g.block_items[i].succ);
                assert(!targets@.subrange(0, 0).contains(g.block_id_at(i)));
            }
            assert(self.fun().block_items =~= g.with_edges(b, targets@.subrange(0, 0)).block_items);
        }
        while n < targets.len()
            invariant
                n <= targets@.len(),
                g.has_block(b),
                g.block_items.len() <= usize::MAX,
                forall|i: int| 0 <= i < targets@.len() ==> g.has_block(#[trigger] targets@[i]),
                self.fun() == g.with_edges(b, targets@.subrange(0, n as int)),
                self.cursor() == old(self).cursor(),
            decreases targets@.len() - n,
        {
            let t = targets[n];
            assert(g.has_block(t));
            let ghost before = self.fun();
            let block = self.function.block_mut(b);
            block.append_succ(t);
            let ghost between = self.fun();
            let block = self.function.block_mut(t);
            block.append_pred(b);
            proof {
                let done = targets@.subrange(0, n as int);
                let more = targets@.subrange(0, n + 1);
                assert(more =~= done.push(t));
                assert(more.to_set() =~= done.to_set().insert(t)) by {
                    assert forall|x: BlockId| more.to_set().contains(x) <==> done.to_set().insert(
                        t,
                    ).contains(x) by {
                        if done.contains(x) {
                            let j = choose|j: int| 0 <= j < done.len() && done[j] == x;
                            assert(more[j] == x);
                        }
                        if x == t {
                            assert(more[n as int] == x);
                        }
                        if more.contains(x) {
                            let j = choose|j: int| 0 <= j < more.len() && more[j] == x;
                            if j < n {
                                assert(done[j] == x);
                            }
                        }
                    }
                }
                assert forall|i: int| 0 <= i < g.block_items.len() implies self.fun().block_items[i]
                    =~~= g.with_edges(b, more).block_items[i] by {
                    let x = g.block_id_at(i);
                    let was = before.block_items[i];
                    let now = self.fun().block_items[i];
                    let goal = g.with_edges(b, more).block_items[i];
                    assert(was.insts == g.block_items[i].insts);
                    assert(was.pred == if done.contains(x) {
                        g.block_items[i].pred.insert(b)
                    } else {
                        g.block_items[i].pred
                    });
                    assert(was.succ == if x == b {
                        g.block_items[i].succ.union(done.to_set())
                    } else {
                        g.block_items[i].succ
                    });
                    assert(between.block_items[i] == if i == b.index {
                        BlockView { succ: was.succ.insert(t), ..was }
                    } else {
                        was
                    });
                    assert(now == if i == t.index {
                        BlockView {
                            pred: between.block_items[i].pred.insert(b),
                            ..between.block_items[i]
                        }
                    } else {
                        between.block_items[i]
                    });
                    if x == b {
                        assert(i == b.index);
                        assert(now.succ =~= g.block_items[i].succ.union(more.to_set()));
                    } else {
                        assert(i != b.index);
                    }
                    if x == t {
                        assert(i == t.index);
                        assert(more[n as int] == x);
                        assert(now.pred =~= g.block_items[i].pred.insert(b));
                    } else {
                        assert(i != t.index);
                        if done.contains(x) {
                            let j = choose|j: int| 0 <= j < done.len() && done[j] == x;
                            assert(more[j] == x);
                        }
                        if more.contains(x) {
                            let j = choose|j: int| 0 <= j < more.len() && more[j] == x;
                            assert(done[j] == x);
                        }
                    }
                    assert(now.insts == goal.insts);
                    assert(now.pred == goal.pred);
                    assert(now.succ == goal.succ);
                }
                assert(self.fun().block_items =~= g.with_edges(b, more).block_items);
            }
            n += 1;
        }
        assert(targets@.subrange(0, n as int) =~= targets@);
    }

    /// Makes an instruction from the identifier that it will have, and puts
    /// it at the cursor. Nothing is tied: the caller records the cross-links.
    /// `f` must accept that identifier and record it in the instruction.
    pub fn build_inst_with_id<F: FnOnce(InstId) -> Inst>(&mut self, f: F) -> (id: InstId)
        requires
            old(self).fun().wf(),
            old(self).cursor().at_index(old(self).fun()),
            call_requires(f, (old(self).fun().next_inst_id(),)),
            forall|inst: Inst|
                call_ensures(f, (old(self).fun().next_inst_id(),), inst) ==> inst@.id == old(
                    self,
                ).fun().next_inst_id(),
        ensures
            id == old(self).fun().next_inst_id(),
            final(self).fun().inst_items.len() == old(self).fun().inst_items.len() + 1,
            exists|inst: Inst|
                call_ensures(f, (id,), inst) && final(self).fun() == old(self).fun().with_inst_at(
                    old(self).cursor().insert_block.unwrap(),
                    old(self).cursor().index(old(self).fun()),
                    inst@,
                ),
            final(self).cursor() == old(self).cursor(),
            final(self).fun().wf(),
    {
        let (block_id, index) = self.get_insert_index();
        self.function.insert_inst_with_id(block_id, index, f)
    }

    /// Makes an instruction of the given kind, puts it at the cursor, and
    /// ties it in. The cursor stays where it is: at the instruction it stood
    /// at, which now follows the new one, or after the block's end.
    pub fn build_inst(&mut self, kind: InstKind) -> (id: InstId)
        requires
            old(self).ready(),
            old(self).cursor().at_index(old(self).fun()),
            kind@.names_within(old(self).fun()),
        ensures
            id == old(self).fun().next_inst_id(),
            final(self).fun() == old(self).fun().built(old(self).cursor(), kind@),
            final(self).cursor() == old(self).cursor(),
            final(self).ready(),
    {
        let (block_id, index) = self.get_insert_index();
        let ops = kind.operands();
        let targets = kind.targets();
        let ghost kv = kind@;
        let ghost f0 = self.fun();
        let ghost new_inst = InstView { kind: kv, id: f0.next_inst_id(), uses: Set::empty() };
        let link = match &kind {
            InstKind::Load(m) => InstKind::Load(*m),
            InstKind::Store(m, v) => InstKind::Store(*m, *v),
            _ => InstKind::Const(0),
        };
        assert(forall|m: MemoryId| link@.loads(m) == kv.loads(m) && link@.stores(m) == kv.stores(m));
        let make = move |i: InstId| -> (r: Inst)
            ensures
                r@ == (InstView { kind: kv, id: i, uses: Set::empty() }),
            { Inst::new(kind, i) };
        let id = self.function.insert_inst_with_id(block_id, index, make);
        let ghost f1 = self.fun();
        assert(f1 == f0.with_inst_at(block_id, index as int, new_inst));
        assert(f1.inst(id) == new_inst);
        assert forall|i: int| 0 <= i < ops@.len() implies f1.has_inst(#[trigger] ops@[i]) by {
            assert(f0.has_inst(kv.operands()[i]));
        }
        self.tie_operands(&ops, id);
        assert forall|m: MemoryId| link@.loads(m) || link@.stores(m) implies self.fun().has_memory(
            m,
        ) by {
            assert(f0.has_memory(m));
        }
        self.tie_memory(&link, id);
        assert forall|i: int| 0 <= i < targets@.len() implies self.fun().has_block(
            #[trigger] targets@[i],
        ) by {
            assert(f0.has_block(kv.targets()[i]));
        }
        self.tie_targets(block_id, &targets);
        proof {
            let f2 = f1.with_user(kv.operands(), id);
            assert(f2.with_slot_user(link@, id).memory_items =~= f2.with_slot_user(
                kv,
                id,
            ).memory_items);
            f0.lemma_with_inst_tied(block_id, index as int, new_inst);
        }
        id
    }

    /// Forgets `id` as a user of each of the values `ops`.
    fn untie_operands(&mut self, ops: &Vec<InstId>, id: InstId)
        requires
            old(self).fun().inst_items.len() <= usize::MAX,
            forall|i: int| 0 <= i < ops@.len() ==> old(self).fun().has_inst(#[trigger] ops@[i]),
        ensures
            final(self).fun() == old(self).fun().without_user(ops@, id),
            final(self).cursor() == old(self).cursor(),
    {
        let ghost g = self.fun();
        let mut n: usize = 0;
        assert(self.fun().inst_items =~= g.without_user(ops@.subrange(0, 0), id).inst_items);
        while n < ops.len()
            invariant
                n <= ops@.len(),
                g.inst_items.len() <= usize::MAX,
                forall|i: int| 0 <= i < ops@.len() ==> g.has_inst(#[trigger] ops@[i]),
                self.fun() == g.without_user(ops@.subrange(0, n as int), id),
                self.cursor() == old(self).cursor(),
            decreases ops@.len() - n,
        {
            let v = ops[n];
            assert(g.has_inst(v));
            let ghost before = self.fun();
            let inst = self.function.inst_mut(v);
            inst.remove_use(id);
            proof {
                let done = ops@.subrange(0, n as int);
                let more = ops@.subrange(0, n + 1);
                assert(more =~= done.push(v));
                assert forall|i: int| 0 <= i < g.inst_items.len() implies self.fun().inst_items[i]
                    =~~= g.without_user(more, id).inst_items[i] by {
                    let x = g.inst_id_at(i);
                    assert(before.inst_items[i] == if done.contains(x) {
                        InstView { uses: g.inst_items[i].uses.remove(id), ..g.inst_items[i] }
                    } else {
                        g.inst_items[i]
                    });
                    if x == v {
                        assert(more[n as int] == x);
                        assert(i == v.index);
                        assert(self.fun().inst_items[i].uses =~= g.inst_items[i].uses.remove(id));
                    } else {
                        assert(self.fun().inst_items[i] == before.inst_items[i]);
                        assert(i != v.index);
                        if done.contains(x) {
                            let j = choose|j: int| 0 <= j < done.len() && done[j] == x;
                            assert(more[j] == x);
                        }
                        if more.contains(x) {
                            let j = choose|j: int| 0 <= j < more.len() && more[j] == x;
                            assert(done[j] == x);
                        }
                    }
                }
                assert(self.fun().inst_items =~= g.without_user(more, id).inst_items);
            }
            n += 1;
        }
        assert(ops@.subrange(0, n as int) =~= ops@);
    }

    /// Forgets `id` at the slot that an instruction of kind `kind` loads from
    /// or stores to.
    fn untie_memory(&mut self, kind: &InstKind, id: InstId)
        requires
            old(self).fun().memory_items.len() <= usize::MAX,
            forall|m: MemoryId| kind@.loads(m) || kind@.stores(m) ==> old(self).fun().has_memory(m),
        ensures
            final(self).fun() == old(self).fun().without_slot_user(kind@, id),
            final(self).cursor() == old(self).cursor(),
    {
        let ghost g = self.fun();
        match kind {
            InstKind::Load(m) => {
                assert(kind@.loads(*m));
                let memory = self.function.memory_mut(*m);
                memory.remove_load(id);
                proof {
                    assert forall|i: int| 0 <= i < g.memory_items.len() implies self.fun().memory_items[i]
                        =~~= g.without_slot_user(kind@, id).memory_items[i] by {
                        if g.memory_id_at(i) == *m {
                            assert(i == m.index);
                        } else {
                            assert(i != m.index);
                        }
                    }
                    assert(self.fun().memory_items =~= g.without_slot_user(kind@, id).memory_items);
                }
            },
            InstKind::Store(m, _) => {
                assert(kind@.stores(*m));
                let memory = self.function.memory_mut(*m);
                memory.remove_store(id);
                proof {
                    assert forall|i: int| 0 <= i < g.memory_items.len() implies self.fun().memory_items[i]
                        =~~= g.without_slot_user(kind@, id).memory_items[i] by {
                        if g.memory_id_at(i) == *m {
                            assert(i == m.index);
                        } else {
                            assert(i != m.index);
                        }
                    }
                    assert(self.fun().memory_items =~= g.without_slot_user(kind@, id).memory_items);
                }
            },
            _ => {
                proof {
                    assert(self.fun().memory_items =~= g.without_slot_user(kind@, id).memory_items);
                }
            },
        }
    }

    /// Whether some instruction of block `b` branches to block `t`.
    fn block_branches_to(&self, b: BlockId, t: BlockId) -> (r: bool)
        requires
            self.fun().has_block(b),
            forall|i: int|
                0 <= i < self.fun().block(b).insts.len() ==> self.fun().has_inst(
                    #[trigger] self.fun().block(b).insts[i],
                ),
        ensures
            r == self.fun().branches_to(b, t),
    {
        let insts = self.function.block(b).insts();
        let mut i: usize = 0;
        while i < insts.len()
            invariant
                i <= insts@.len(),
                insts@ == self.fun().block(b).insts,
                self.fun().has_block(b),
                forall|i: int|
                    0 <= i < self.fun().block(b).insts.len() ==> self.fun().has_inst(
                        #[trigger] self.fun().block(b).insts[i],
                    ),
                forall|j: int|
                    0 <= j < i ==> !self.fun().inst(#[trigger] insts@[j]).kind.targets().contains(t),
            decreases insts@.len() - i,
        {
            let x = insts[i];
            if self.function.inst(x).kind().branches_to(t) {
                return true;
            }
            i += 1;
        }
        false
    }

    /// Drops, at both ends, each edge from block `b` to one of the blocks
    /// `targets` that no instruction of `b` accounts for.
    fn untie_targets(&mut self, b: BlockId, targets: &Vec<BlockId>)
        requires
            old(self).fun().block_items.len() <= usize::MAX,
            old(self).fun().has_block(b),
            forall|i: int|
                0 <= i < old(self).fun().block(b).insts.len() ==> old(self).fun().has_inst(
                    #[trigger] old(self).fun().block(b).insts[i],
                ),
            forall|i: int|
                0 <= i < targets@.len() ==> old(self).fun().has_block(#[trigger] targets@[i]),
        ensures
            final(self).fun() == old(self).fun().without_edges(b, targets@),
            final(self).cursor() == old(self).cursor(),
    {
        let ghost g = self.fun();
        let mut stale: Vec<bool> = Vec::new();
        let mut n: usize = 0;
        while n < targets.len()
            invariant
                n <= targets@.len(),
                stale@.len() == n,
                self.fun() == g,
                self.cursor() == old(self).cursor(),
                g.has_block(b),
                forall|i: int|
                    0 <= i < g.block(b).insts.len() ==> g.has_inst(#[trigger] g.block(b).insts[i]),
                forall|i: int| 0 <= i < n ==> stale@[i] == !g.branches_to(b, #[trigger] targets@[i]),
            decreases targets@.len() - n,
        {
            let r = self.block_branches_to(b, targets[n]);
            stale.push(!r);
            n += 1;
        }
        let mut n: usize = 0;
        proof {
            let none = targets@.subrange(0, 0);
            assert forall|i: int| 0 <= i < g.block_items.len() implies g.block_items[i]
                =~~= g.without_edges(b, none).block_items[i] by {
                assert(!none.contains(g.block_id_at(i)));
                assert(g.block_items[i].succ.filter(
                    |t: BlockId| !none.contains(t) || g.branches_to(b, t),
                ) =~= g.block_items[i].succ);
            }
            assert(self.fun().block_items =~= g.without_edges(b, none).block_items);
        }
        while n < targets.len()
            invariant
                n <= targets@.len(),
                stale@.len() == targets@.len(),
                g.has_block(b),
                g.block_items.len() <= usize::MAX,
                forall|i: int| 0 <= i < targets@.len() ==> g.has_block(#[trigger] targets@[i]),
                forall|i: int|
                    0 <= i < targets@.len() ==> stale@[i] == !g.branches_to(
                        b,
                        #[trigger] targets@[i],
                    ),
                self.fun() == g.without_edges(b, targets@.subrange(0, n as int)),
                self.cursor() == old(self).cursor(),
            decreases targets@.len() - n,
        {
            let t = targets[n];
            assert(g.has_block(t));
            let ghost before = self.fun();
            if stale[n] {
                let block = self.function.block_mut(b);
                block.remove_succ(t);
                let ghost between = self.fun();
                let block = self.function.block_mut(t);
                block.remove_pred(b);
                proof {
                    assert(between.block_items == before.block_items.update(
                        b.index as int,
                        BlockView { succ: before.block(b).succ.remove(t), ..before.block(b) },
                    ));
                    assert(self.fun().block_items == between.block_items.update(
                        t.index as int,
                        BlockView { pred: between.block(t).pred.remove(b), ..between.block(t) },
                    ));
                }
            }
            proof {
                let done = targets@.subrange(0, n as int);
                let more = targets@.subrange(0, n + 1);
                assert(more =~= done.push(t));
                assert(more[n as int] == t);
                assert forall|x: BlockId| more.contains(x) <==> done.contains(x) || x == t by {
                    if done.contains(x) {
                        let j = choose|j: int| 0 <= j < done.len() && done[j] == x;
                        assert(more[j] == x);
                    }
                    if more.contains(x) {
                        let j = choose|j: int| 0 <= j < more.len() && more[j] == x;
                        if j < n {
                            assert(done[j] == x);
                        }
                    }
                }
                assert forall|i: int| 0 <= i < g.block_items.len() implies self.fun().block_items[i]
                    =~~= g.without_edges(b, more).block_items[i] by {
                    let x = g.block_id_at(i);
                    let was = before.block_items[i];
                    let now = self.fun().block_items[i];
                    let goal = g.without_edges(b, more).block_items[i];
                    assert(was == g.without_edges(b, done).block_items[i]);
                    assert(x == b <==> i == b.index);
                    assert(x == t <==> i == t.index);
                    assert(now.insts == goal.insts);
                    assert(now.pred =~= goal.pred);
                    assert(now.succ =~= goal.succ);
                }
                assert(self.fun().block_items =~= g.without_edges(b, more).block_items);
            }
            n += 1;
        }
        assert(targets@.subrange(0, n as int) =~= targets@);
    }

    /// Takes the instruction at the cursor out of its block and unties it.
    /// The cursor then stands at the instruction that followed it, or after
    /// the block's end where none did. The arena keeps the instruction.
    pub fn remove_inst(&mut self)
        requires
            old(self).ready(),
            old(self).cursor().at_index(old(self).fun()),
            old(self).cursor().insert_point is At,
        ensures
            final(self).fun() == old(self).fun().unbuilt(old(self).cursor()),
            final(self).cursor().insert_block == old(self).cursor().insert_block,
            final(self).cursor().insert_point == old(self).fun().point_after_removal(
                old(self).cursor(),
            ),
            final(self).ready(),
    {
        let (block_id, index) = self.get_insert_index();
        let ghost f0 = self.fun();
        let id = self.function.block(block_id).insts()[index];
        assert(f0.has_inst(f0.block(block_id).insts[index as int]));
        assert(f0.inst_linked(block_id, f0.block(block_id).insts[index as int]));
        let kind = self.function.inst(id).kind();
        let ops = kind.operands();
        let targets = kind.targets();
        let link = match kind {
            InstKind::Load(m) => InstKind::Load(*m),
            InstKind::Store(m, v) => InstKind::Store(*m, *v),
            _ => InstKind::Const(0),
        };
        let ghost kv = kind@;
        assert(forall|m: MemoryId| link@.loads(m) == kv.loads(m) && link@.stores(m) == kv.stores(m));
        self.function.remove_inst(block_id, index);
        let ghost f1 = self.fun();
        assert(f1.inst(id).kind == kv);
        assert forall|i: int| 0 <= i < ops@.len() implies f1.has_inst(#[trigger] ops@[i]) by {
            assert(f0.has_inst(kv.operands()[i]));
        }
        self.untie_operands(&ops, id);
        assert forall|m: MemoryId| link@.loads(m) || link@.stores(m) implies self.fun().has_memory(
            m,
        ) by {
            assert(f0.has_memory(m));
        }
        self.untie_memory(&link, id);
        proof {
            let f2 = f1.without_user(kv.operands(), id);
            assert(f2.without_slot_user(link@, id).memory_items =~= f2.without_slot_user(
                kv,
                id,
            ).memory_items);
            f0.lemma_without_inst_untied(block_id, index as int);
            let f3 = f2.without_slot_user(kv, id);
            assert(self.fun() == f3);
            f0.lemma_without_inst_at(block_id, index as int);
            assert forall|i: int| 0 <= i < f3.block(block_id).insts.len() implies f3.has_inst(
                #[trigger] f3.block(block_id).insts[i],
            ) by {
                assert(f1.has_inst(f1.block(block_id).insts[i]));
            }
        }
        assert forall|i: int| 0 <= i < targets@.len() implies self.fun().has_block(
            #[trigger] targets@[i],
        ) by {
            assert(f0.has_block(kv.targets()[i]));
        }
        self.untie_targets(block_id, &targets);
        if index < self.function.block(block_id).insts().len() {
            self.cursor.position_at_index(&self.function, block_id, index);
        } else {
            self.cursor.position_at_end(block_id);
        }
    }

    // ----- inst -> value -----

    /// Builds `v1 == v2` at the cursor.
    pub fn build_eq(&mut self, v1: InstId, v2: InstId) -> (id: InstId)
        requires
            old(self).ready(),
            old(self).cursor().at_index(old(self).fun()),
            old(self).fun().has_inst(v1),
            old(self).fun().has_inst(v2),
        ensures
            id == old(self).fun().next_inst_id(),
            final(self).fun() == old(self).fun().built(
                old(self).cursor(),
                InstKindView::Eq(v1, v2),
            ),
            final(self).cursor() == old(self).cursor(),
            final(self).ready(),
    {
        self.build_inst(InstKind::Eq(v1, v2))
    }

    /// Builds `v1 != v2` at the cursor.
    pub fn build_ne(&mut self, v1: InstId, v2: InstId) -> (id: InstId)
        requires
            old(self).ready(),
            old(self).cursor().at_index(old(self).fun()),
            old(self).fun().has_inst(v1),
            old(self).fun().has_inst(v2),
        ensures
            id == old(self).fun().next_inst_id(),
            final(self).fun() == old(self).fun().built(
                old(self).cursor(),
                InstKindView::Ne(v1, v2),
            ),
            final(self).cursor() == old(self).cursor(),
            final(self).ready(),
    {
        self.build_inst(InstKind::Ne(v1, v2))
    }

    /// Builds `v1 < v2` at the cursor.
    pub fn build_lt(&mut self, v1: InstId, v2: InstId) -> (id: InstId)
        requires
            old(self).ready(),
            old(self).cursor().at_index(old(self).fun()),
            old(self).fun().has_inst(v1),
            old(self).fun().has_inst(v2),
        ensures
            id == old(self).fun().next_inst_id(),
            final(self).fun() == old(self).fun().built(
                old(self).cursor(),
                InstKindView::Lt(v1, v2),
            ),
            final(self).cursor() == old(self).cursor(),
            final(self).ready(),
    {
        self.build_inst(InstKind::Lt(v1, v2))
    }

    /// Builds `v1 <= v2` at the cursor.
    pub fn build_le(&mut self, v1: InstId, v2: InstId) -> (id: InstId)
        requires
            old(self).ready(),
            old(self).cursor().at_index(old(self).fun()),
            old(self).fun().has_inst(v1),
            old(self).fun().has_inst(v2),
        ensures
            id == old(self).fun().next_inst_id(),
            final(self).fun() == old(self).fun().built(
                old(self).cursor(),
                InstKindView::Le(v1, v2),
            ),
            final(self).cursor() == old(self).cursor(),
            final(self).ready(),
    {
        self.build_inst(InstKind::Le(v1, v2))
    }

    /// Builds `v1 + v2` at the cursor.
    pub fn build_add(&mut self, v1: InstId, v2: InstId) -> (id: InstId)
        requires
            old(self).ready(),
            old(self).cursor().at_index(old(self).fun()),
            old(self).fun().has_inst(v1),
            old(self).fun().has_inst(v2),
        ensures
            id == old(self).fun().next_inst_id(),
            final(self).fun() == old(self).fun().built(
                old(self).cursor(),
                InstKindView::Add(v1, v2),
            ),
            final(self).cursor() == old(self).cursor(),
            final(self).ready(),
    {
        self.build_inst(InstKind::Add(v1, v2))
    }

    /// Builds `v1 - v2` at the cursor.
    pub fn build_sub(&mut self, v1: InstId, v2: InstId) -> (id: InstId)
        requires
            old(self).ready(),
            old(self).cursor().at_index(old(self).fun()),
            old(self).fun().has_inst(v1),
            old(self).fun().has_inst(v2),
        ensures
            id == old(self).fun().next_inst_id(),
            final(self).fun() == old(self).fun().built(
                old(self).cursor(),
                InstKindView::Sub(v1, v2),
            ),
            final(self).cursor() == old(self).cursor(),
            final(self).ready(),
    {
        self.build_inst(InstKind::Sub(v1, v2))
    }

    /// Builds `v1 * v2` at the cursor.
    pub fn build_mul(&mut self, v1: InstId, v2: InstId) -> (id: InstId)
        requires
            old(self).ready(),
            old(self).cursor().at_index(old(self).fun()),
            old(self).fun().has_inst(v1),
            old(self).fun().has_inst(v2),
        ensures
            id == old(self).fun().next_inst_id(),
            final(self).fun() == old(self).fun().built(
                old(self).cursor(),
                InstKindView::Mul(v1, v2),
            ),
            final(self).cursor() == old(self).cursor(),
            final(self).ready(),
    {
        self.build_inst(InstKind::Mul(v1, v2))
    }

    /// Builds `v1 / v2` at the cursor.
    pub fn build_div(&mut self, v1: InstId, v2: InstId) -> (id: InstId)
        requires
            old(self).ready(),
            old(self).cursor().at_index(old(self).fun()),
            old(self).fun().has_inst(v1),
            old(self).fun().has_inst(v2),
        ensures
            id == old(self).fun().next_inst_id(),
            final(self).fun() == old(self).fun().built(
                old(self).cursor(),
                InstKindView::Div(v1, v2),
            ),
            final(self).cursor() == old(self).cursor(),
            final(self).ready(),
    {
        self.build_inst(InstKind::Div(v1, v2))
    }

    /// Builds a load from slot `m1` at the cursor.
    pub fn build_load(&mut self, m1: MemoryId) -> (id: InstId)
        requires
            old(self).ready(),
            old(self).cursor().at_index(old(self).fun()),
            old(self).fun().has_memory(m1),
        ensures
            id == old(self).fun().next_inst_id(),
            final(self).fun() == old(self).fun().built(old(self).cursor(), InstKindView::Load(m1)),
            final(self).cursor() == old(self).cursor(),
            final(self).ready(),
    {
        self.build_inst(InstKind::Load(m1))
    }

    /// Builds a call of function `fun_id` with the arguments `args` at the
    /// cursor.
    pub fn build_call(&mut self, fun_id: FunctionId, args: Vec<InstId>) -> (id: InstId)
        requires
            old(self).ready(),
            old(self).cursor().at_index(old(self).fun()),
            forall|i: int| 0 <= i < args@.len() ==> old(self).fun().has_inst(#[trigger] args@[i]),
        ensures
            id == old(self).fun().next_inst_id(),
            final(self).fun() == old(self).fun().built(
                old(self).cursor(),
                InstKindView::Call(fun_id, args@),
            ),
            final(self).cursor() == old(self).cursor(),
            final(self).ready(),
    {
        self.build_inst(InstKind::Call(fun_id, args))
    }

    /// Builds the constant `n` at the cursor.
    pub fn build_const(&mut self, n: u64) -> (id: InstId)
        requires
            old(self).ready(),
            old(self).cursor().at_index(old(self).fun()),
        ensures
            id == old(self).fun().next_inst_id(),
            final(self).fun() == old(self).fun().built(old(self).cursor(), InstKindView::Const(n)),
            final(self).cursor() == old(self).cursor(),
            final(self).ready(),
    {
        self.build_inst(InstKind::Const(n))
    }

    // ----- inst -> effect -----

    /// Builds a branch on `v1` to `block1` or `block2` at the cursor, and
    /// records both edges.
    pub fn build_conditional_branch(&mut self, v1: InstId, block1: BlockId, block2: BlockId) -> (id:
        InstId)
        requires
            old(self).ready(),
            old(self).cursor().at_index(old(self).fun()),
            old(self).fun().has_inst(v1),
            old(self).fun().has_block(block1),
            old(self).fun().has_block(block2),
        ensures
            id == old(self).fun().next_inst_id(),
            final(self).fun() == old(self).fun().built(
                old(self).cursor(),
                InstKindView::Br(v1, block1, block2),
            ),
            final(self).cursor() == old(self).cursor(),
            final(self).ready(),
    {
        self.build_inst(InstKind::Br(v1, block1, block2))
    }

    /// Builds a jump to `block1` at the cursor, and records the edge.
    pub fn build_unconditional_branch(&mut self, block1: BlockId) -> (id: InstId)
        requires
            old(self).ready(),
            old(self).cursor().at_index(old(self).fun()),
            old(self).fun().has_block(block1),
        ensures
            id == old(self).fun().next_inst_id(),
            final(self).fun() == old(self).fun().built(old(self).cursor(), InstKindView::Jmp(block1)),
            final(self).cursor() == old(self).cursor(),
            final(self).ready(),
    {
        self.build_inst(InstKind::Jmp(block1))
    }

    /// Builds a store of `v1` to slot `m1` at the cursor.
    pub fn build_store(&mut self, m1: MemoryId, v1: InstId) -> (id: InstId)
        requires
            old(self).ready(),
            old(self).cursor().at_index(old(self).fun()),
            old(self).fun().has_memory(m1),
            old(self).fun().has_inst(v1),
        ensures
            id == old(self).fun().next_inst_id(),
            final(self).fun() == old(self).fun().built(
                old(self).cursor(),
                InstKindView::Store(m1, v1),
            ),
            final(self).cursor() == old(self).cursor(),
            final(self).ready(),
    {
        self.build_inst(InstKind::Store(m1, v1))
    }

    /// Builds a return of `v1` at the cursor.
    pub fn build_return(&mut self, v1: InstId) -> (id: InstId)
        requires
            old(self).ready(),
            old(self).cursor().at_index(old(self).fun()),
            old(self).fun().has_inst(v1),
        ensures
            id == old(self).fun().next_inst_id(),
            final(self).fun() == old(self).fun().built(old(self).cursor(), InstKindView::Ret(v1)),
            final(self).cursor() == old(self).cursor(),
            final(self).ready(),
    {
        self.build_inst(InstKind::Ret(v1))
    }

    /// Makes every user of `from` read `to` in its place: each is rewritten
    /// and becomes a user of `to`, and `from` is left with no user. The
    /// instruction `from` itself stays where it is. Replacing an instruction
    /// by itself changes nothing.
    pub fn replace_all_uses(&mut self, from: InstId, to: InstId)
        requires
            old(self).ready(),
            old(self).fun().has_inst(from),
            old(self).fun().has_inst(to),
        ensures
            final(self).fun() == if from == to {
                old(self).fun()
            } else {
                old(self).fun().with_uses_replaced(from, to)
            },
            final(self).cursor() == old(self).cursor(),
            final(self).ready(),
    {
        if from == to {
            return ;
        }
        let ghost g = self.fun();
        let mut users: Vec<InstId> = Vec::new();
        let listed = self.function.inst(from).use_().as_slice();
        let mut n: usize = 0;
        while n < listed.len()
            invariant
                n <= listed@.len(),
                users@ == listed@.subrange(0, n as int),
            decreases listed@.len() - n,
        {
            users.push(listed[n]);
            assert(users@ =~= listed@.subrange(0, n + 1));
            n += 1;
        }
        assert(users@ =~= listed@);
        assert(users@.to_set() == g.inst(from).uses);
        let mut n: usize = 0;
        proof {
            let none = users@.subrange(0, 0).to_set();
            assert(none =~= Set::<InstId>::empty());
            assert forall|i: int| 0 <= i < g.inst_items.len() implies g.inst_items[i]
                =~~= g.with_users_moved(from, to, none).inst_items[i] by {
                assert(g.inst_items[i].uses.union(none) =~= g.inst_items[i].uses);
            }
            assert(g.inst_items =~= g.with_users_moved(from, to, none).inst_items);
        }
        while n < users.len()
            invariant
                n <= users@.len(),
                g.wf(),
                g.has_inst(to),
                from != to,
                self.fun() == g.with_users_moved(from, to, users@.subrange(0, n as int).to_set()),
                self.cursor() == old(self).cursor(),
            decreases users@.len() - n,
        {
            let u = users[n];
            let ghost before = self.fun();
            let ghost done = users@.subrange(0, n as int).to_set();
            let ghost more = users@.subrange(0, n + 1).to_set();
            proof {
                assert(users@.subrange(0, n + 1) =~= users@.subrange(0, n as int).push(u));
                assert(more =~= done.insert(u)) by {
                    let d = users@.subrange(0, n as int);
                    let m = users@.subrange(0, n + 1);
                    assert forall|x: InstId| m.to_set().contains(x) <==> d.to_set().insert(
                        u,
                    ).contains(x) by {
                        if d.contains(x) {
                            let j = choose|j: int| 0 <= j < d.len() && d[j] == x;
                            assert(m[j] == x);
                        }
                        if x == u {
                            assert(m[n as int] == x);
                        }
                        if m.contains(x) {
                            let j = choose|j: int| 0 <= j < m.len() && m[j] == x;
                            if j < n {
                                assert(d[j] == x);
                            }
                        }
                    }
                }
            }
            if self.function.has_inst(u) {
                let rewritten = self.function.inst(u).kind().replaced(from, to);
                let inst = self.function.inst_mut(u);
                inst.set_kind(rewritten);
            }
            let ghost between = self.fun();
            let inst = self.function.inst_mut(to);
            inst.append_use(u);
            proof {
                assert forall|i: int| 0 <= i < g.inst_items.len() implies self.fun().inst_items[i]
                    =~~= g.with_users_moved(from, to, more).inst_items[i] by {
                    let x = g.inst_id_at(i);
                    let was = before.inst_items[i];
                    let mid = between.inst_items[i];
                    let now = self.fun().inst_items[i];
                    assert(x == u <==> g.has_inst(u) && i == u.index);
                    assert(x == to <==> i == to.index);
                    assert(mid == if x == u {
                        InstView { kind: g.inst_items[i].kind.replace_operand(from, to), ..was }
                    } else {
                        was
                    }) by {
                        if x == u && done.contains(x) {
                            lemma_replace_twice(g.inst_items[i].kind, from, to);
                        }
                    }
                    assert(now == if x == to {
                        InstView { uses: mid.uses.insert(u), ..mid }
                    } else {
                        mid
                    });
                    if x == to {
                        assert(now.uses =~= g.inst_items[i].uses.union(more));
                    }
                }
                assert(self.fun().inst_items =~= g.with_users_moved(from, to, more).inst_items);
            }
            n += 1;
        }
        assert(users@.subrange(0, n as int) =~= users@);
        let inst = self.function.inst_mut(from);
        inst.clear_use();
        proof {
            g.lemma_with_uses_replaced(from, to);
        }
    }

    // ----- memory -----

    /// Makes a stack slot and returns its identifier.
    pub fn build_alloca(&mut self) -> (id: MemoryId)
        requires
            old(self).ready(),
        ensures
            id == old(self).fun().next_memory_id(),
            final(self).fun() == old(self).fun().with_memory(),
            final(self).cursor() == old(self).cursor(),
            final(self).ready(),
    {
        let id = self.function.append_memory();
        proof {
            old(self).fun().lemma_with_memory();
        }
        id
    }
}

/// Replacing an operand a second time changes nothing, where the two
/// instructions differ.
pub proof fn lemma_replace_twice(k: InstKindView, old: InstId, new: InstId)
    requires
        old != new,
    ensures
        k.replace_operand(old, new).replace_operand(old, new) == k.replace_operand(old, new),
{
    match k {
        InstKindView::Call(f, args) => {
            let r = |x: InstId| swapped(x, old, new);
            assert(args.map_values(r).map_values(r) =~= args.map_values(r));
        },
        _ => {},
    }
}

} // verus!
