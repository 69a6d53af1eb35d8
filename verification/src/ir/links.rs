//! The cross-links of a function, and what making and removing an
//! instruction does to them.
//!
//! An instruction that stands in a block is tied to the rest of the function
//! from both sides: each value it reads lists it as a user, the stack slot it
//! loads from or stores to lists it, and each block it branches to has its
//! block as a predecessor, as its block has that one as a successor.

use crate::ir::arena::{BlockId, InstId, MemoryId};
use crate::ir::block::BlockView;
use crate::ir::function::FunctionView;
use crate::ir::inst::{swapped, InstKindView, InstView};
use crate::ir::memory::MemoryView;
use vstd::prelude::*;

verus! {

impl InstKindView {
    /// Whether the instruction loads from slot `m`.
    pub open spec fn loads(self, m: MemoryId) -> bool {
        self == InstKindView::Load(m)
    }

    /// Whether the instruction stores to slot `m`.
    pub open spec fn stores(self, m: MemoryId) -> bool {
        match self {
            InstKindView::Store(x, _) => x == m,
            _ => false,
        }
    }

    /// Whether everything that the instruction names is part of `f`: the
    /// values it reads, the slot it touches, the blocks it branches to.
    pub open spec fn names_within(self, f: FunctionView) -> bool {
        &&& forall|i: int| 0 <= i < self.operands().len() ==> f.has_inst(#[trigger] self.operands()[i])
        &&& forall|m: MemoryId| self.loads(m) || self.stores(m) ==> f.has_memory(m)
        &&& forall|i: int| 0 <= i < self.targets().len() ==> f.has_block(#[trigger] self.targets()[i])
    }
}

impl FunctionView {
    /// The identifier of the instruction in slot `i` of the arena.
    pub open spec fn inst_id_at(self, i: int) -> InstId {
        InstId { arena: self.inst_tag, index: i as usize }
    }

    /// The identifier of the block in slot `i` of the arena.
    pub open spec fn block_id_at(self, i: int) -> BlockId {
        BlockId { arena: self.block_tag, index: i as usize }
    }

    /// The identifier of the stack slot in slot `i` of the arena.
    pub open spec fn memory_id_at(self, i: int) -> MemoryId {
        MemoryId { arena: self.memory_tag, index: i as usize }
    }

    /// Whether the instruction `id`, standing in block `b`, is tied to the
    /// function from both sides.
    pub open spec fn inst_linked(self, b: BlockId, id: InstId) -> bool {
        let k = self.inst(id).kind;
        &&& k.names_within(self)
        &&& forall|i: int|
            0 <= i < k.operands().len() ==> self.inst(#[trigger] k.operands()[i]).uses.contains(id)
        &&& forall|m: MemoryId| k.loads(m) ==> self.memory(m).load.contains(id)
        &&& forall|m: MemoryId| k.stores(m) ==> self.memory(m).store.contains(id)
        &&& forall|i: int|
            0 <= i < k.targets().len() ==> self.block(#[trigger] k.targets()[i]).pred.contains(b)
                && self.block(b).succ.contains(k.targets()[i])
    }

    /// Every instruction that stands in a block is tied to the function from
    /// both sides.
    pub open spec fn linked(self) -> bool {
        forall|b: BlockId, i: int|
            self.has_block(b) && 0 <= i < self.block(b).insts.len() ==> self.inst_linked(
                b,
                #[trigger] self.block(b).insts[i],
            )
    }

    /// The function in which each of the values `ops` has gained `id` as a
    /// user.
    pub open spec fn with_user(self, ops: Seq<InstId>, id: InstId) -> FunctionView {
        FunctionView {
            inst_items: Seq::new(
                self.inst_items.len(),
                |i: int|
                    if ops.contains(self.inst_id_at(i)) {
                        InstView {
                            uses: self.inst_items[i].uses.insert(id),
                            ..self.inst_items[i]
                        }
                    } else {
                        self.inst_items[i]
                    },
            ),
            ..self
        }
    }

    /// The function in which the slot that an instruction of kind `k` loads
    /// from or stores to lists `id`.
    pub open spec fn with_slot_user(self, k: InstKindView, id: InstId) -> FunctionView {
        FunctionView {
            memory_items: Seq::new(
                self.memory_items.len(),
                |i: int|
                    MemoryView {
                        load: if k.loads(self.memory_id_at(i)) {
                            self.memory_items[i].load.insert(id)
                        } else {
                            self.memory_items[i].load
                        },
                        store: if k.stores(self.memory_id_at(i)) {
                            self.memory_items[i].store.insert(id)
                        } else {
                            self.memory_items[i].store
                        },
                    },
            ),
            ..self
        }
    }

    /// The function in which an edge from block `b` to each of the blocks
    /// `targets` is recorded at both ends.
    pub open spec fn with_edges(self, b: BlockId, targets: Seq<BlockId>) -> FunctionView {
        FunctionView {
            block_items: Seq::new(
                self.block_items.len(),
                |i: int|
                    BlockView {
                        insts: self.block_items[i].insts,
                        pred: if targets.contains(self.block_id_at(i)) {
                            self.block_items[i].pred.insert(b)
                        } else {
                            self.block_items[i].pred
                        },
                        succ: if self.block_id_at(i) == b {
                            self.block_items[i].succ.union(targets.to_set())
                        } else {
                            self.block_items[i].succ
                        },
                    },
            ),
            ..self
        }
    }

    /// The function with the instruction `id` of block `b` tied in: every
    /// value it reads gains it as a user, the slot it touches lists it, and
    /// for each block it branches to the edge from `b` is recorded at both
    /// ends.
    pub open spec fn tied(self, b: BlockId, id: InstId) -> FunctionView {
        let k = self.inst(id).kind;
        self.with_user(k.operands(), id).with_slot_user(k, id).with_edges(b, k.targets())
    }

    /// The function with a new instruction of kind `kind` put where the
    /// cursor `c` stands, and tied in.
    pub open spec fn built(self, c: crate::ir::visitor::Cursor, kind: InstKindView) -> FunctionView {
        let b = c.insert_block.unwrap();
        self.with_inst_at(
            b,
            c.index(self),
            InstView { kind, id: self.next_inst_id(), uses: Set::empty() },
        ).tied(b, self.next_inst_id())
    }

    /// The function in which none of the values `ops` has `id` as a user.
    pub open spec fn without_user(self, ops: Seq<InstId>, id: InstId) -> FunctionView {
        FunctionView {
            inst_items: Seq::new(
                self.inst_items.len(),
                |i: int|
                    if ops.contains(self.inst_id_at(i)) {
                        InstView {
                            uses: self.inst_items[i].uses.remove(id),
                            ..self.inst_items[i]
                        }
                    } else {
                        self.inst_items[i]
                    },
            ),
            ..self
        }
    }

    /// The function in which the slot that an instruction of kind `k` loads
    /// from or stores to no longer lists `id`.
    pub open spec fn without_slot_user(self, k: InstKindView, id: InstId) -> FunctionView {
        FunctionView {
            memory_items: Seq::new(
                self.memory_items.len(),
                |i: int|
                    MemoryView {
                        load: if k.loads(self.memory_id_at(i)) {
                            self.memory_items[i].load.remove(id)
                        } else {
                            self.memory_items[i].load
                        },
                        store: if k.stores(self.memory_id_at(i)) {
                            self.memory_items[i].store.remove(id)
                        } else {
                            self.memory_items[i].store
                        },
                    },
            ),
            ..self
        }
    }

    /// Whether some instruction of block `b` branches to block `t`.
    pub open spec fn branches_to(self, b: BlockId, t: BlockId) -> bool {
        exists|i: int|
            0 <= i < self.block(b).insts.len() && self.inst(
                #[trigger] self.block(b).insts[i],
            ).kind.targets().contains(t)
    }

    /// The function in which each edge from block `b` to one of the blocks
    /// `targets` that no instruction of `b` accounts for is dropped at both
    /// ends.
    pub open spec fn without_edges(self, b: BlockId, targets: Seq<BlockId>) -> FunctionView {
        FunctionView {
            block_items: Seq::new(
                self.block_items.len(),
                |i: int|
                    BlockView {
                        insts: self.block_items[i].insts,
                        pred: if targets.contains(self.block_id_at(i)) && !self.branches_to(
                            b,
                            self.block_id_at(i),
                        ) {
                            self.block_items[i].pred.remove(b)
                        } else {
                            self.block_items[i].pred
                        },
                        succ: if self.block_id_at(i) == b {
                            self.block_items[i].succ.filter(
                                |t: BlockId| !targets.contains(t) || self.branches_to(b, t),
                            )
                        } else {
                            self.block_items[i].succ
                        },
                    },
            ),
            ..self
        }
    }

    /// The function with the instruction `id`, which was just taken out of
    /// block `b`, untied: no value it reads lists it as a user, no slot lists
    /// it, and an edge from `b` that no instruction left in `b` accounts for
    /// is dropped at both ends.
    pub open spec fn untied(self, b: BlockId, id: InstId) -> FunctionView {
        let k = self.inst(id).kind;
        self.without_user(k.operands(), id).without_slot_user(k, id).without_edges(b, k.targets())
    }

    /// A new instruction, put into a block and tied in, leaves a consistent
    /// and linked function consistent and linked, provided that everything it
    /// names is part of the function.
    pub proof fn lemma_with_inst_tied(self, b: BlockId, at: int, inst: InstView)
        requires
            self.wf(),
            self.linked(),
            self.has_block(b),
            0 <= at <= self.block(b).insts.len(),
            inst.id == self.next_inst_id(),
            self.inst_items.len() < usize::MAX,
            inst.kind.names_within(self),
        ensures
            self.with_inst_at(b, at, inst).tied(b, inst.id).wf(),
            self.with_inst_at(b, at, inst).tied(b, inst.id).linked(),
    {
        let id = inst.id;
        let g = self.with_inst_at(b, at, inst);
        let h = g.tied(b, id);
        let k = inst.kind;
        self.lemma_with_inst_at(b, at, inst);
        assert(g.inst(id) == inst);
        assert forall|c: BlockId| h.has_block(c) <==> self.has_block(c) by {}
        assert forall|c: BlockId| h.has_block(c) implies h.block(c).insts == g.block(c).insts by {}
        assert forall|c: BlockId| h.has_block(c) && c != b implies g.block(c) == self.block(c) by {
            assert(c.index != b.index);
        }
        assert forall|x: InstId| h.has_inst(x) implies (#[trigger] h.inst(x)).id == x && h.inst(
            x,
        ).kind == g.inst(x).kind && g.has_inst(x) && g.inst(x).uses.subset_of(h.inst(x).uses) by {
            assert(g.has_inst(x));
            assert(g.inst(x).id == x);
            assert(g.inst_id_at(x.index as int) == x);
        }
        // consistent
        assert(h.wf()) by {
            assert forall|i: int| 0 <= i < h.blocks.len() implies h.has_block(
                #[trigger] h.blocks[i],
            ) by {
                assert(g.has_block(g.blocks[i]));
            }
            assert forall|c: BlockId, i: int|
                h.has_block(c) && 0 <= i < h.block(c).insts.len() implies h.has_inst(
                #[trigger] h.block(c).insts[i],
            ) by {
                assert(g.has_inst(g.block(c).insts[i]));
            }
            assert forall|b1: BlockId, i1: int, b2: BlockId, i2: int|
                #![trigger h.block(b1).insts[i1], h.block(b2).insts[i2]]
                h.has_block(b1) && 0 <= i1 < h.block(b1).insts.len() && h.has_block(b2) && 0
                    <= i2 < h.block(b2).insts.len() && h.block(b1).insts[i1] == h.block(
                    b2,
                ).insts[i2] implies b1 == b2 && i1 == i2 by {
                assert(g.block(b1).insts[i1] == g.block(b2).insts[i2]);
            }
        }
        // linked
        assert forall|c: BlockId, i: int|
            h.has_block(c) && 0 <= i < h.block(c).insts.len() implies h.inst_linked(
            c,
            #[trigger] h.block(c).insts[i],
        ) by {
            let x = h.block(c).insts[i];
            assert(g.block(c).insts[i] == x);
            assert(g.has_inst(x));
            let kx = h.inst(x).kind;
            if x == id {
                assert(kx == k);
                // the only place of the new instruction is where it was put
                assert(g.block(b).insts[at] == id);
                assert(c == b);
                assert forall|j: int| 0 <= j < kx.operands().len() implies h.has_inst(
                    #[trigger] kx.operands()[j],
                ) && h.inst(kx.operands()[j]).uses.contains(id) by {
                    let v = kx.operands()[j];
                    assert(self.has_inst(v));
                    assert(g.inst_id_at(v.index as int) == v);
                    assert(k.operands().contains(v));
                }
                assert forall|m: MemoryId| kx.loads(m) implies h.has_memory(m) && h.memory(
                    m,
                ).load.contains(id) by {
                    assert(self.has_memory(m));
                    assert(g.memory_id_at(m.index as int) == m);
                }
                assert forall|m: MemoryId| kx.stores(m) implies h.has_memory(m) && h.memory(
                    m,
                ).store.contains(id) by {
                    assert(self.has_memory(m));
                    assert(g.memory_id_at(m.index as int) == m);
                }
                assert forall|j: int| 0 <= j < kx.targets().len() implies h.has_block(
                    #[trigger] kx.targets()[j],
                ) && h.block(kx.targets()[j]).pred.contains(b) && h.block(b).succ.contains(
                    kx.targets()[j],
                ) by {
                    let t = kx.targets()[j];
                    assert(self.has_block(t));
                    assert(g.block_id_at(t.index as int) == t);
                    assert(g.block_id_at(b.index as int) == b);
                    assert(k.targets().contains(t));
                    assert(k.targets().to_set().contains(t));
                }
            } else {
                // an instruction that stood in the block before
                let j = if c == b && i > at { i - 1 } else { i };
                assert(c == b ==> i != at);
                assert(self.block(c).insts[j] == x);
                assert(self.has_inst(x));
                assert(self.inst_linked(c, x));
                assert(kx == self.inst(x).kind);
                assert forall|n: int| 0 <= n < kx.operands().len() implies h.has_inst(
                    #[trigger] kx.operands()[n],
                ) && h.inst(kx.operands()[n]).uses.contains(x) by {
                    let v = kx.operands()[n];
                    assert(self.has_inst(v));
                    assert(self.inst(v).uses.contains(x));
                    assert(g.inst(v) == self.inst(v));
                }
                assert forall|m: MemoryId| kx.loads(m) implies h.has_memory(m) && h.memory(
                    m,
                ).load.contains(x) by {
                    assert(self.has_memory(m));
                    assert(self.memory(m).load.contains(x));
                }
                assert forall|m: MemoryId| kx.stores(m) implies h.has_memory(m) && h.memory(
                    m,
                ).store.contains(x) by {
                    assert(self.has_memory(m));
                    assert(self.memory(m).store.contains(x));
                }
                assert forall|n: int| 0 <= n < kx.targets().len() implies h.has_block(
                    #[trigger] kx.targets()[n],
                ) && h.block(kx.targets()[n]).pred.contains(c) && h.block(c).succ.contains(
                    kx.targets()[n],
                ) by {
                    let t = kx.targets()[n];
                    assert(self.has_block(t));
                    assert(self.block(t).pred.contains(c));
                    assert(self.block(c).succ.contains(t));
                    assert(g.block(t).pred == self.block(t).pred);
                    assert(g.block(c).succ == self.block(c).succ);
                }
            }
        }
    }

    /// Whether `g` differs from `self` in the block order alone, or by empty
    /// blocks added to the arena.
    pub open spec fn same_but_blocks(self, g: FunctionView) -> bool {
        &&& g.block_tag == self.block_tag
        &&& g.inst_tag == self.inst_tag
        &&& g.memory_tag == self.memory_tag
        &&& g.inst_items == self.inst_items
        &&& g.memory_items == self.memory_items
        &&& g.block_items.len() >= self.block_items.len()
        &&& forall|i: int|
            0 <= i < g.block_items.len() ==> #[trigger] g.block_items[i] == if i
                < self.block_items.len() {
                self.block_items[i]
            } else {
                BlockView { insts: Seq::empty(), pred: Set::empty(), succ: Set::empty() }
            }
    }

    /// A change of the block order, or the addition of empty blocks, leaves
    /// a linked function linked.
    pub proof fn lemma_same_but_blocks(self, g: FunctionView)
        requires
            self.linked(),
            self.same_but_blocks(g),
        ensures
            g.linked(),
    {
        assert forall|c: BlockId, i: int|
            g.has_block(c) && 0 <= i < g.block(c).insts.len() implies g.inst_linked(
            c,
            #[trigger] g.block(c).insts[i],
        ) by {
            assert(g.block(c) == g.block_items[c.index as int]);
            assert(self.has_block(c));
            let x = self.block(c).insts[i];
            assert(self.inst_linked(c, x));
            let k = self.inst(x).kind;
            assert forall|n: int| 0 <= n < k.targets().len() implies g.has_block(
                #[trigger] k.targets()[n],
            ) && g.block(k.targets()[n]).pred.contains(c) && g.block(c).succ.contains(
                k.targets()[n],
            ) by {
                let t = k.targets()[n];
                assert(self.has_block(t));
                assert(g.block(t) == g.block_items[t.index as int]);
                assert(self.block(t).pred.contains(c));
            }
        }
    }

    /// A new stack slot leaves a consistent and linked function consistent
    /// and linked.
    pub proof fn lemma_with_memory(self)
        requires
            self.wf(),
            self.linked(),
            self.memory_items.len() < usize::MAX,
        ensures
            self.with_memory().wf(),
            self.with_memory().linked(),
    {
        assert(self.with_memory().memory_items.len() == self.memory_items.len() + 1);
        let g = self.with_memory();
        assert forall|c: BlockId| g.has_block(c) <==> self.has_block(c) by {}
        assert forall|c: BlockId| g.has_block(c) implies g.block(c) == self.block(c) by {}
        assert forall|x: InstId| g.has_inst(x) implies (#[trigger] g.inst(x)).id == x by {
            assert(self.has_inst(x));
            assert(self.inst(x).id == x);
        }
        assert forall|i: int| 0 <= i < g.blocks.len() implies g.has_block(#[trigger] g.blocks[i]) by {
            assert(self.has_block(self.blocks[i]));
        }
        assert forall|c: BlockId, i: int|
            g.has_block(c) && 0 <= i < g.block(c).insts.len() implies g.has_inst(
            #[trigger] g.block(c).insts[i],
        ) && g.inst_linked(c, g.block(c).insts[i]) by {
            let x = self.block(c).insts[i];
            assert(self.has_inst(x));
            assert(self.inst_linked(c, x));
            let k = self.inst(x).kind;
            assert forall|m: MemoryId| k.loads(m) || k.stores(m) implies g.has_memory(m)
                && g.memory(m) == self.memory(m) by {
                assert(self.has_memory(m));
            }
        }
        assert forall|b1: BlockId, i1: int, b2: BlockId, i2: int|
            #![trigger g.block(b1).insts[i1], g.block(b2).insts[i2]]
            g.has_block(b1) && 0 <= i1 < g.block(b1).insts.len() && g.has_block(b2) && 0 <= i2
                < g.block(b2).insts.len() && g.block(b1).insts[i1] == g.block(b2).insts[i2]
                implies b1 == b2 && i1 == i2 by {
            assert(self.block(b1).insts[i1] == self.block(b2).insts[i2]);
        }
    }

    /// The function from which the instruction at the cursor `c` has been
    /// taken out and untied.
    pub open spec fn unbuilt(self, c: crate::ir::visitor::Cursor) -> FunctionView {
        let b = c.insert_block.unwrap();
        let at = c.index(self);
        self.without_inst_at(b, at).untied(b, self.block(b).insts[at])
    }

    /// Where the cursor `c` stands once the instruction it stood at is
    /// taken out: at the instruction that followed, or after the block's end.
    pub open spec fn point_after_removal(self, c: crate::ir::visitor::Cursor) -> crate::ir::visitor::InsertPoint {
        let insts = self.block(c.insert_block.unwrap()).insts;
        let at = c.index(self);
        if at + 1 < insts.len() {
            crate::ir::visitor::InsertPoint::At(insts[at + 1])
        } else {
            crate::ir::visitor::InsertPoint::After
        }
    }

    /// An instruction taken out of its block and untied leaves a consistent
    /// and linked function consistent and linked.
    pub proof fn lemma_without_inst_untied(self, b: BlockId, at: int)
        requires
            self.wf(),
            self.linked(),
            self.has_block(b),
            0 <= at < self.block(b).insts.len(),
        ensures
            self.without_inst_at(b, at).untied(b, self.block(b).insts[at]).wf(),
            self.without_inst_at(b, at).untied(b, self.block(b).insts[at]).linked(),
    {
        let id = self.block(b).insts[at];
        let g = self.without_inst_at(b, at);
        let h = g.untied(b, id);
        let k = g.inst(id).kind;
        self.lemma_without_inst_at(b, at);
        assert(self.has_inst(id));
        assert forall|c: BlockId| h.has_block(c) <==> self.has_block(c) by {}
        assert forall|c: BlockId| h.has_block(c) implies h.block(c).insts == g.block(c).insts by {}
        assert forall|c: BlockId| h.has_block(c) && c != b implies g.block(c) == self.block(c) by {
            assert(c.index != b.index);
        }
        assert(g.block(b).insts == self.block(b).insts.remove(at));
        assert forall|x: InstId| h.has_inst(x) implies (#[trigger] h.inst(x)).id == x && h.inst(
            x,
        ).kind == self.inst(x).kind && self.has_inst(x) by {
            assert(g.has_inst(x));
            assert(g.inst(x).id == x);
        }
        assert(h.wf()) by {
            assert forall|i: int| 0 <= i < h.blocks.len() implies h.has_block(
                #[trigger] h.blocks[i],
            ) by {
                assert(g.has_block(g.blocks[i]));
            }
            assert forall|c: BlockId, i: int|
                h.has_block(c) && 0 <= i < h.block(c).insts.len() implies h.has_inst(
                #[trigger] h.block(c).insts[i],
            ) by {
                assert(g.has_inst(g.block(c).insts[i]));
            }
            assert forall|b1: BlockId, i1: int, b2: BlockId, i2: int|
                #![trigger h.block(b1).insts[i1], h.block(b2).insts[i2]]
                h.has_block(b1) && 0 <= i1 < h.block(b1).insts.len() && h.has_block(b2) && 0
                    <= i2 < h.block(b2).insts.len() && h.block(b1).insts[i1] == h.block(
                    b2,
                ).insts[i2] implies b1 == b2 && i1 == i2 by {
                assert(g.block(b1).insts[i1] == g.block(b2).insts[i2]);
            }
        }
        assert forall|c: BlockId, i: int|
            h.has_block(c) && 0 <= i < h.block(c).insts.len() implies h.inst_linked(
            c,
            #[trigger] h.block(c).insts[i],
        ) by {
            let x = h.block(c).insts[i];
            assert(g.block(c).insts[i] == x);
            let j = if c == b && i >= at { i + 1 } else { i };
            assert(self.block(c).insts[j] == x);
            assert(self.block(b).insts[at] == id);
            assert(x != id);
            assert(self.has_inst(x));
            assert(self.inst_linked(c, x));
            let kx = h.inst(x).kind;
            assert(kx == self.inst(x).kind);
            assert forall|n: int| 0 <= n < kx.operands().len() implies h.has_inst(
                #[trigger] kx.operands()[n],
            ) && h.inst(kx.operands()[n]).uses.contains(x) by {
                let v = kx.operands()[n];
                assert(self.has_inst(v));
                assert(self.inst(v).uses.contains(x));
                assert(g.inst(v) == self.inst(v));
            }
            assert forall|m: MemoryId| kx.loads(m) implies h.has_memory(m) && h.memory(
                m,
            ).load.contains(x) by {
                assert(self.has_memory(m));
                assert(self.memory(m).load.contains(x));
            }
            assert forall|m: MemoryId| kx.stores(m) implies h.has_memory(m) && h.memory(
                m,
            ).store.contains(x) by {
                assert(self.has_memory(m));
                assert(self.memory(m).store.contains(x));
            }
            assert forall|n: int| 0 <= n < kx.targets().len() implies h.has_block(
                #[trigger] kx.targets()[n],
            ) && h.block(kx.targets()[n]).pred.contains(c) && h.block(c).succ.contains(
                kx.targets()[n],
            ) by {
                let t = kx.targets()[n];
                assert(self.has_block(t));
                assert(self.block(t).pred.contains(c));
                assert(self.block(c).succ.contains(t));
                assert(g.block(t).pred == self.block(t).pred);
                assert(g.block(c).succ == self.block(c).succ);
                assert(g.block_id_at(t.index as int) == t);
                assert(g.block_id_at(c.index as int) == c);
                let w = g.without_user(k.operands(), id).without_slot_user(k, id);
                assert(w.block_items == g.block_items);
                assert(w.inst_items.len() == g.inst_items.len());
                assert(w.inst(x).kind == kx);
                if c == b {
                    assert(w.block(b).insts[i] == x);
                    assert(w.branches_to(b, t));
                }
            }
        }
    }

    /// The function in which, of the users of `old`, those among `users` read
    /// `new` in its place and are users of `new`.
    pub open spec fn with_users_moved(self, old: InstId, new: InstId, users: Set<InstId>) -> FunctionView {
        FunctionView {
            inst_items: Seq::new(
                self.inst_items.len(),
                |i: int|
                    InstView {
                        kind: if users.contains(self.inst_id_at(i)) {
                            self.inst_items[i].kind.replace_operand(old, new)
                        } else {
                            self.inst_items[i].kind
                        },
                        id: self.inst_items[i].id,
                        uses: if self.inst_id_at(i) == new {
                            self.inst_items[i].uses.union(users)
                        } else {
                            self.inst_items[i].uses
                        },
                    },
            ),
            ..self
        }
    }

    /// The function in which every user of `old` reads `new` in its place
    /// and is a user of `new`, and `old` has no user left.
    pub open spec fn with_uses_replaced(self, old: InstId, new: InstId) -> FunctionView {
        let g = self.with_users_moved(old, new, self.inst(old).uses);
        FunctionView {
            inst_items: g.inst_items.update(
                old.index as int,
                InstView { uses: Set::empty(), ..g.inst(old) },
            ),
            ..g
        }
    }

    /// Replacing every use of one instruction by another leaves a consistent
    /// and linked function consistent and linked.
    pub proof fn lemma_with_uses_replaced(self, old: InstId, new: InstId)
        requires
            self.wf(),
            self.linked(),
            self.has_inst(old),
            self.has_inst(new),
            old != new,
        ensures
            self.with_uses_replaced(old, new).wf(),
            self.with_uses_replaced(old, new).linked(),
    {
        let users = self.inst(old).uses;
        let h = self.with_uses_replaced(old, new);
        assert forall|c: BlockId| h.has_block(c) <==> self.has_block(c) by {}
        assert forall|c: BlockId| h.has_block(c) implies h.block(c) == self.block(c) by {}
        assert forall|x: InstId| h.has_inst(x) implies self.has_inst(x) && (#[trigger] h.inst(x)).id
            == x && h.inst(x).kind == (if users.contains(x) {
            self.inst(x).kind.replace_operand(old, new)
        } else {
            self.inst(x).kind
        }) && (x != old ==> self.inst(x).uses.subset_of(h.inst(x).uses)) && (x == new
            ==> users.subset_of(h.inst(x).uses)) by {
            assert(self.has_inst(x));
            assert(self.inst(x).id == x);
            assert(self.inst_id_at(x.index as int) == x);
        }
        assert(h.wf()) by {
            assert forall|i: int| 0 <= i < h.blocks.len() implies h.has_block(
                #[trigger] h.blocks[i],
            ) by {
                assert(self.has_block(self.blocks[i]));
            }
            assert forall|c: BlockId, i: int|
                h.has_block(c) && 0 <= i < h.block(c).insts.len() implies h.has_inst(
                #[trigger] h.block(c).insts[i],
            ) by {
                assert(self.has_inst(self.block(c).insts[i]));
            }
            assert forall|b1: BlockId, i1: int, b2: BlockId, i2: int|
                #![trigger h.block(b1).insts[i1], h.block(b2).insts[i2]]
                h.has_block(b1) && 0 <= i1 < h.block(b1).insts.len() && h.has_block(b2) && 0
                    <= i2 < h.block(b2).insts.len() && h.block(b1).insts[i1] == h.block(
                    b2,
                ).insts[i2] implies b1 == b2 && i1 == i2 by {
                assert(self.block(b1).insts[i1] == self.block(b2).insts[i2]);
            }
        }
        assert forall|c: BlockId, i: int|
            h.has_block(c) && 0 <= i < h.block(c).insts.len() implies h.inst_linked(
            c,
            #[trigger] h.block(c).insts[i],
        ) by {
            let x = h.block(c).insts[i];
            assert(self.block(c).insts[i] == x);
            assert(self.has_inst(x));
            assert(self.inst_linked(c, x));
            let k0 = self.inst(x).kind;
            let kx = h.inst(x).kind;
            lemma_replace_operand(k0, old, new);
            assert(kx.operands().len() == k0.operands().len());
            assert(kx.targets() == k0.targets());
            assert forall|m: MemoryId| kx.loads(m) == k0.loads(m) && kx.stores(m) == k0.stores(
                m,
            ) by {}
            assert forall|n: int| 0 <= n < kx.operands().len() implies h.has_inst(
                #[trigger] kx.operands()[n],
            ) && h.inst(kx.operands()[n]).uses.contains(x) by {
                let v0 = k0.operands()[n];
                let v = kx.operands()[n];
                assert(self.has_inst(v0));
                assert(self.inst(v0).uses.contains(x));
                if users.contains(x) {
                    assert(v == swapped(v0, old, new));
                } else {
                    assert(v == v0);
                    assert(v0 != old);
                }
            }
            assert forall|m: MemoryId| kx.loads(m) implies h.has_memory(m) && h.memory(
                m,
            ).load.contains(x) by {
                assert(self.has_memory(m));
                assert(self.memory(m).load.contains(x));
            }
            assert forall|m: MemoryId| kx.stores(m) implies h.has_memory(m) && h.memory(
                m,
            ).store.contains(x) by {
                assert(self.has_memory(m));
                assert(self.memory(m).store.contains(x));
            }
            assert forall|n: int| 0 <= n < kx.targets().len() implies h.has_block(
                #[trigger] kx.targets()[n],
            ) && h.block(kx.targets()[n]).pred.contains(c) && h.block(c).succ.contains(
                kx.targets()[n],
            ) by {
                let t = k0.targets()[n];
                assert(self.has_block(t));
                assert(self.block(t).pred.contains(c));
            }
        }
    }
}

/// Replacing an operand changes the operands place by place, and nothing
/// else that the instruction names.
pub proof fn lemma_replace_operand(k: InstKindView, old: InstId, new: InstId)
    ensures
        k.replace_operand(old, new).operands() =~= k.operands().map_values(
            |x: InstId| swapped(x, old, new),
        ),
        k.replace_operand(old, new).targets() == k.targets(),
        forall|m: MemoryId| k.replace_operand(old, new).loads(m) == k.loads(m),
        forall|m: MemoryId| k.replace_operand(old, new).stores(m) == k.stores(m),
        k.replace_operand(old, new).has_side_effect() == k.has_side_effect(),
{
}

impl FunctionView {
    /// In a consistent function no block lists an instruction twice.
    pub proof fn lemma_block_distinct(self, b: BlockId)
        requires
            self.wf(),
            self.has_block(b),
        ensures
            self.block(b).insts.no_duplicates(),
    {
        assert forall|i: int, j: int|
            0 <= i < self.block(b).insts.len() && 0 <= j < self.block(b).insts.len() && i
                != j implies self.block(b).insts[i] != self.block(b).insts[j] by {
            if self.block(b).insts[i] == self.block(b).insts[j] {
                assert(i == j);
            }
        }
    }

    /// What taking out and untying the instruction at position `at` of block
    /// `b` leaves as it was: the signature, the block order, the arenas'
    /// sizes, what every instruction does, and the instruction lists of the
    /// other blocks.
    pub proof fn lemma_untied_frame(self, b: BlockId, at: int)
        requires
            self.has_block(b),
            0 <= at < self.block(b).insts.len(),
            self.block_items.len() <= usize::MAX,
        ensures
            ({
                let h = self.without_inst_at(b, at).untied(b, self.block(b).insts[at]);
                &&& h.name == self.name
                &&& h.ret_ty == self.ret_ty
                &&& h.param_tys == self.param_tys
                &&& h.blocks == self.blocks
                &&& h.block_tag == self.block_tag
                &&& h.inst_tag == self.inst_tag
                &&& h.memory_tag == self.memory_tag
                &&& h.block_items.len() == self.block_items.len()
                &&& h.inst_items.len() == self.inst_items.len()
                &&& h.memory_items.len() == self.memory_items.len()
                &&& forall|x: InstId|
                    self.has_inst(x) ==> (#[trigger] h.inst(x)).kind == self.inst(x).kind && h.inst(
                        x,
                    ).id == self.inst(x).id
                &&& h.block(b).insts == self.block(b).insts.remove(at)
                &&& forall|c: BlockId|
                    self.has_block(c) && c != b ==> (#[trigger] h.block(c)).insts == self.block(
                        c,
                    ).insts
            }),
    {
        let h = self.without_inst_at(b, at).untied(b, self.block(b).insts[at]);
        assert forall|c: BlockId| self.has_block(c) && c != b implies (#[trigger] h.block(c)).insts
            == self.block(c).insts by {
            assert(c.index != b.index);
        }
    }
}

impl FunctionView {
    /// What building an instruction at position `at` of block `b` leaves as
    /// it was, and what it changes: the block gains the new instruction at
    /// that position, and the instruction arena its payload.
    pub proof fn lemma_tied_frame(self, b: BlockId, at: int, inst: InstView)
        requires
            self.has_block(b),
            0 <= at <= self.block(b).insts.len(),
            inst.id == self.next_inst_id(),
            self.block_items.len() <= usize::MAX,
            self.inst_items.len() < usize::MAX,
        ensures
            ({
                let h = self.with_inst_at(b, at, inst).tied(b, inst.id);
                &&& h.name == self.name
                &&& h.ret_ty == self.ret_ty
                &&& h.param_tys == self.param_tys
                &&& h.blocks == self.blocks
                &&& h.block_tag == self.block_tag
                &&& h.inst_tag == self.inst_tag
                &&& h.memory_tag == self.memory_tag
                &&& h.block_items.len() == self.block_items.len()
                &&& h.inst_items.len() == self.inst_items.len() + 1
                &&& h.memory_items.len() == self.memory_items.len()
                &&& h.inst(inst.id).kind == inst.kind
                &&& forall|x: InstId|
                    self.has_inst(x) ==> (#[trigger] h.inst(x)).kind == self.inst(x).kind && h.inst(
                        x,
                    ).id == self.inst(x).id
                &&& h.block(b).insts == self.block(b).insts.insert(at, inst.id)
                &&& forall|c: BlockId|
                    self.has_block(c) && c != b ==> (#[trigger] h.block(c)).insts == self.block(
                        c,
                    ).insts
            }),
    {
        let h = self.with_inst_at(b, at, inst).tied(b, inst.id);
        assert forall|c: BlockId| self.has_block(c) && c != b implies (#[trigger] h.block(c)).insts
            == self.block(c).insts by {
            assert(c.index != b.index);
        }
    }
}

/// Whether `x` stands in `b` at some place before one where `y` stands.
pub open spec fn ordered_in(b: Seq<InstId>, x: InstId, y: InstId) -> bool {
    exists|p: int, q: int| 0 <= p < q < b.len() && #[trigger] b[p] == x && #[trigger] b[q] == y
}

/// The element at `p` stands before the element at `q`, where `p < q`.
pub proof fn lemma_ordered_in(b: Seq<InstId>, p: int, q: int)
    requires
        0 <= p < q < b.len(),
    ensures
        ordered_in(b, b[p], b[q]),
{
}

/// Every element of `a` is in `b`, and any two elements of `a` stand in `b`
/// in the order in which they stand in `a`.
pub open spec fn sub_list(a: Seq<InstId>, b: Seq<InstId>) -> bool {
    &&& a.len() <= b.len()
    &&& forall|i: int| 0 <= i < a.len() ==> b.contains(#[trigger] a[i])
    &&& forall|i: int, j: int| 0 <= i < j < a.len() ==> #[trigger] ordered_in(b, a[i], a[j])
}

/// A list without one of its elements is a sub-list of it, and so of every
/// list that it is a sub-list of.
pub proof fn lemma_sub_list_remove(a: Seq<InstId>, k: int, b: Seq<InstId>)
    requires
        sub_list(a, b),
        0 <= k < a.len(),
    ensures
        sub_list(a.remove(k), b),
{
    let r = a.remove(k);
    assert forall|i: int| 0 <= i < r.len() implies b.contains(#[trigger] r[i]) by {
        let i0 = if i < k { i } else { i + 1 };
        assert(r[i] == a[i0]);
    }
    assert forall|i: int, j: int| 0 <= i < j < r.len() implies #[trigger] ordered_in(
        b,
        r[i],
        r[j],
    ) by {
        let i0 = if i < k { i } else { i + 1 };
        let j0 = if j < k { j } else { j + 1 };
        assert(r[i] == a[i0] && r[j] == a[j0]);
        assert(ordered_in(b, a[i0], a[j0]));
    }
}

/// Whether `g` is `f` with some instructions without side effect taken out
/// and untied: the signature, the block order and the arenas' sizes are the
/// same, every instruction does what it did, every block lists a sub-list of
/// what it listed, and every instruction with a side effect is still listed.
pub open spec fn thinned(f: FunctionView, g: FunctionView) -> bool {
    &&& g.name == f.name
    &&& g.ret_ty == f.ret_ty
    &&& g.param_tys == f.param_tys
    &&& g.blocks == f.blocks
    &&& g.block_tag == f.block_tag
    &&& g.inst_tag == f.inst_tag
    &&& g.memory_tag == f.memory_tag
    &&& g.block_items.len() == f.block_items.len()
    &&& g.inst_items.len() == f.inst_items.len()
    &&& g.memory_items.len() == f.memory_items.len()
    &&& forall|x: InstId| f.has_inst(x) ==> (#[trigger] g.inst(x)).kind == f.inst(x).kind
    &&& forall|b: BlockId| f.has_block(b) ==> sub_list((#[trigger] g.block(b)).insts, f.block(b).insts)
    &&& forall|b: BlockId, i: int|
        f.has_block(b) && 0 <= i < f.block(b).insts.len() && f.inst(
            #[trigger] f.block(b).insts[i],
        ).kind.has_side_effect() ==> g.block(b).insts.contains(f.block(b).insts[i])
}

/// A function is a thinning of itself.
pub proof fn lemma_thinned_refl(f: FunctionView)
    ensures
        thinned(f, f),
{
    assert forall|b: BlockId| f.has_block(b) implies sub_list(
        (#[trigger] f.block(b)).insts,
        f.block(b).insts,
    ) by {
        let a = f.block(b).insts;
        assert forall|i: int, j: int| 0 <= i < j < a.len() implies #[trigger] ordered_in(
            a,
            a[i],
            a[j],
        ) by {
            lemma_ordered_in(a, i, j);
        }
    }
}

/// Taking one more instruction without side effect out of a thinning gives
/// a thinning.
pub proof fn lemma_thinned_step(f: FunctionView, g: FunctionView, b: BlockId, at: int)
    requires
        thinned(f, g),
        g.wf(),
        g.has_block(b),
        0 <= at < g.block(b).insts.len(),
        !g.inst(g.block(b).insts[at]).kind.has_side_effect(),
    ensures
        thinned(f, g.without_inst_at(b, at).untied(b, g.block(b).insts[at])),
{
    let x = g.block(b).insts[at];
    let h = g.without_inst_at(b, at).untied(b, x);
    g.lemma_untied_frame(b, at);
    g.lemma_block_distinct(b);
    assert forall|y: InstId| f.has_inst(y) implies (#[trigger] h.inst(y)).kind == f.inst(y).kind by {
        assert(g.has_inst(y));
        assert(g.inst(y).kind == f.inst(y).kind);
    }
    assert forall|c: BlockId| f.has_block(c) implies sub_list(
        (#[trigger] h.block(c)).insts,
        f.block(c).insts,
    ) by {
        assert(g.has_block(c));
        assert(sub_list(g.block(c).insts, f.block(c).insts));
        if c == b {
            lemma_sub_list_remove(g.block(b).insts, at, f.block(b).insts);
        }
    }
    assert forall|c: BlockId, i: int|
        f.has_block(c) && 0 <= i < f.block(c).insts.len() && f.inst(
            #[trigger] f.block(c).insts[i],
        ).kind.has_side_effect() implies h.block(c).insts.contains(f.block(c).insts[i]) by {
        let y = f.block(c).insts[i];
        assert(g.has_block(c));
        assert(g.block(c).insts.contains(y));
        if c == b {
            let j = choose|j: int| 0 <= j < g.block(b).insts.len() && g.block(b).insts[j] == y;
            assert(sub_list(g.block(b).insts, f.block(b).insts));
            assert(g.has_inst(g.block(b).insts[j]));
            assert(f.has_inst(y));
            assert(g.inst(y).kind == f.inst(y).kind);
            assert(j != at);
            let j1 = if j < at { j } else { j - 1 };
            assert(h.block(b).insts[j1] == y);
        }
    }
}

/// A thinning has at most as many instructions in the blocks of the block
/// order, from any position on.
pub proof fn lemma_thinned_count(f: FunctionView, g: FunctionView, from: int)
    requires
        thinned(f, g),
        forall|i: int| 0 <= i < f.blocks.len() ==> f.has_block(#[trigger] f.blocks[i]),
    ensures
        g.count_from(from) <= f.count_from(from),
    decreases f.blocks.len() - from,
{
    if 0 <= from < f.blocks.len() {
        lemma_thinned_count(f, g, from + 1);
        assert(f.has_block(f.blocks[from]));
        assert(sub_list(g.block(f.blocks[from]).insts, f.block(f.blocks[from]).insts));
    }
}

/// In a linked function, an instruction that stands in a block is listed
/// as a user by every value that it reads.
pub proof fn law_operands_list_user(f: FunctionView, b: BlockId, i: int, n: int)
    requires
        f.linked(),
        f.has_block(b),
        0 <= i < f.block(b).insts.len(),
        0 <= n < f.inst(f.block(b).insts[i]).kind.operands().len(),
    ensures
        f.has_inst(f.inst(f.block(b).insts[i]).kind.operands()[n]),
        f.inst(f.inst(f.block(b).insts[i]).kind.operands()[n]).uses.contains(f.block(b).insts[i]),
{
    assert(f.inst_linked(b, f.block(b).insts[i]));
}

/// In a linked function, a branch that stands in block `b0` has `b0` among
/// the predecessors of both its targets, and both targets among the
/// successors of `b0`.
pub proof fn law_branch_edges(f: FunctionView, b0: BlockId, i: int)
    requires
        f.linked(),
        f.has_block(b0),
        0 <= i < f.block(b0).insts.len(),
        f.inst(f.block(b0).insts[i]).kind is Br,
    ensures
        ({
            let b1 = f.inst(f.block(b0).insts[i]).kind->Br_1;
            let b2 = f.inst(f.block(b0).insts[i]).kind->Br_2;
            &&& f.has_block(b1) && f.has_block(b2)
            &&& f.block(b1).pred.contains(b0)
            &&& f.block(b2).pred.contains(b0)
            &&& f.block(b0).succ.contains(b1)
            &&& f.block(b0).succ.contains(b2)
        }),
{
    let x = f.block(b0).insts[i];
    assert(f.inst_linked(b0, x));
    let ts = f.inst(x).kind.targets();
    assert(ts[0] == f.inst(x).kind->Br_1);
    assert(ts[1] == f.inst(x).kind->Br_2);
}

/// In a linked function, a jump that stands in block `b0` has `b0` among
/// the predecessors of its target, and the target among the successors of
/// `b0`.
pub proof fn law_jump_edge(f: FunctionView, b0: BlockId, i: int)
    requires
        f.linked(),
        f.has_block(b0),
        0 <= i < f.block(b0).insts.len(),
        f.inst(f.block(b0).insts[i]).kind is Jmp,
    ensures
        ({
            let b1 = f.inst(f.block(b0).insts[i]).kind->Jmp_0;
            &&& f.has_block(b1)
            &&& f.block(b1).pred.contains(b0)
            &&& f.block(b0).succ.contains(b1)
        }),
{
    let x = f.block(b0).insts[i];
    assert(f.inst_linked(b0, x));
    let ts = f.inst(x).kind.targets();
    assert(ts[0] == f.inst(x).kind->Jmp_0);
}

/// In a linked function, a load or a store that stands in a block is listed
/// by the stack slot that it touches.
pub proof fn law_slots_list_access(f: FunctionView, b: BlockId, i: int)
    requires
        f.linked(),
        f.has_block(b),
        0 <= i < f.block(b).insts.len(),
    ensures
        match f.inst(f.block(b).insts[i]).kind {
            InstKindView::Load(m) => f.has_memory(m) && f.memory(m).load.contains(
                f.block(b).insts[i],
            ),
            InstKindView::Store(m, _) => f.has_memory(m) && f.memory(m).store.contains(
                f.block(b).insts[i],
            ),
            _ => true,
        },
{
    let x = f.block(b).insts[i];
    assert(f.inst_linked(b, x));
    match f.inst(x).kind {
        InstKindView::Load(m) => {
            assert(f.inst(x).kind.loads(m));
        },
        InstKindView::Store(m, _) => {
            assert(f.inst(x).kind.stores(m));
        },
        _ => {},
    }
}

} // verus!
