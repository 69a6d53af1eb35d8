//! What a function computes, and that dead-code elimination keeps it.
//!
//! A function is run from the first block of its block order, with its
//! arguments in its first stack slots. Each value instruction yields a
//! 64-bit pattern, computed as constant folding computes it; a call yields
//! what the world outside the function answers for the callee and the
//! argument values, and does nothing else. A branch takes its first target
//! where its condition is not zero. The run ends with the value that a
//! `Ret` reads.
//!
//! Running is bounded by the number of jumps that may be taken, so that it
//! is defined for functions that loop.

use crate::ir::arena::{BlockId, FunctionId, InstId, MemoryId};
use crate::ir::function::FunctionView;
use crate::ir::inst::{dead_given, InstKindView};
use crate::ir::visitor::{lemma_index_of_first_distinct, Cursor, InsertPoint};
use crate::pass::folder::{binary_operands, folded};
use vstd::prelude::*;

verus! {

/// What has been computed at a point of a run: the values that instructions
/// have yielded, and what the stack slots hold.
pub struct Store {
    pub regs: Map<InstId, u64>,
    pub slots: Map<MemoryId, u64>,
}

/// How a run ends.
pub enum Outcome {
    /// With a `Ret` of this value.
    Returned(u64),
    /// At a place with no instruction: past the end of a block, or in a
    /// block that the function does not have.
    Stuck,
    /// Not within the number of jumps allowed.
    Unfinished,
}

/// What calls return: a value for each callee and argument values.
pub type Calls = spec_fn(FunctionId, Seq<u64>) -> u64;

impl Store {
    /// The value of instruction `v`; zero where it has yielded none.
    pub open spec fn value(self, v: InstId) -> u64 {
        if self.regs.contains_key(v) {
            self.regs[v]
        } else {
            0
        }
    }

    /// What stack slot `m` holds; zero where nothing was stored.
    pub open spec fn slot(self, m: MemoryId) -> u64 {
        if self.slots.contains_key(m) {
            self.slots[m]
        } else {
            0
        }
    }

    /// The values of the instructions `vs`, in order.
    pub open spec fn values(self, vs: Seq<InstId>) -> Seq<u64> {
        Seq::new(vs.len(), |i: int| self.value(vs[i]))
    }

    /// Whether the two stores hold the same but for the value of `x`.
    pub open spec fn same_but(self, other: Store, x: InstId) -> bool {
        &&& forall|m: MemoryId| self.slot(m) == other.slot(m)
        &&& forall|v: InstId| v != x ==> self.value(v) == other.value(v)
    }
}

/// What an instruction of kind `k` yields in store `s`. An instruction with
/// a side effect yields zero.
pub open spec fn yielded(k: InstKindView, s: Store, calls: Calls) -> u64 {
    match k {
        InstKindView::Load(m) => s.slot(m),
        InstKindView::Call(f, args) => calls(f, s.values(args)),
        InstKindView::Const(n) => n,
        _ => match binary_operands(k) {
            Some((a, b)) => match folded(k, s.value(a), s.value(b)) {
                Some(n) => n,
                None => 0,
            },
            None => 0,
        },
    }
}

impl FunctionView {
    /// How the run ends that goes on at position `i` of block `b` with
    /// store `s`, where `fuel` more jumps may be taken.
    pub open spec fn exec(self, b: BlockId, i: int, s: Store, calls: Calls, fuel: nat) -> Outcome
        decreases fuel, self.block(b).insts.len() - i,
    {
        if !self.has_block(b) || i < 0 || i >= self.block(b).insts.len() {
            Outcome::Stuck
        } else {
            let x = self.block(b).insts[i];
            match self.inst(x).kind {
                InstKindView::Ret(v) => Outcome::Returned(s.value(v)),
                InstKindView::Jmp(t) => if fuel == 0 {
                    Outcome::Unfinished
                } else {
                    self.exec(t, 0, s, calls, (fuel - 1) as nat)
                },
                InstKindView::Br(c, t1, t2) => if fuel == 0 {
                    Outcome::Unfinished
                } else if s.value(c) != 0 {
                    self.exec(t1, 0, s, calls, (fuel - 1) as nat)
                } else {
                    self.exec(t2, 0, s, calls, (fuel - 1) as nat)
                },
                InstKindView::Store(m, v) => self.exec(
                    b,
                    i + 1,
                    Store { slots: s.slots.insert(m, s.value(v)), ..s },
                    calls,
                    fuel,
                ),
                k => self.exec(
                    b,
                    i + 1,
                    Store { regs: s.regs.insert(x, yielded(k, s, calls)), ..s },
                    calls,
                    fuel,
                ),
            }
        }
    }

    /// The store at the start of a run: no instruction has yielded a value,
    /// and the first stack slots hold the arguments.
    pub open spec fn entry_store(self, args: Seq<u64>) -> Store {
        Store {
            regs: Map::empty(),
            slots: Map::new(
                |m: MemoryId| m.arena == self.memory_tag && m.index < args.len(),
                |m: MemoryId| args[m.index as int],
            ),
        }
    }

    /// How the function's run on `args` ends, where `fuel` jumps may be
    /// taken. A function without blocks has nothing to run.
    pub open spec fn run(self, args: Seq<u64>, calls: Calls, fuel: nat) -> Outcome {
        if self.blocks.len() == 0 {
            Outcome::Stuck
        } else {
            self.exec(self.blocks[0], 0, self.entry_store(args), calls, fuel)
        }
    }

    /// Whether instruction `x` stands in a block.
    pub open spec fn placed(self, x: InstId) -> bool {
        exists|b: BlockId, i: int|
            self.has_block(b) && 0 <= i < self.block(b).insts.len() && #[trigger] self.block(
                b,
            ).insts[i] == x
    }

    /// Whether no instruction that stands in a block reads the value of `x`.
    pub open spec fn unread(self, x: InstId) -> bool {
        forall|b: BlockId, i: int|
            self.has_block(b) && 0 <= i < self.block(b).insts.len() ==> !self.inst(
                #[trigger] self.block(b).insts[i],
            ).kind.operands().contains(x)
    }

    /// Whether every instruction known to be dead has left its block.
    pub open spec fn rid_of(self, known: Map<InstId, bool>) -> bool {
        forall|u: InstId| known.contains_key(u) && #[trigger] known[u] ==> !self.placed(u)
    }

    /// The position in the function without the instruction at `p` of
    /// block `bx` that stands for position `i` of block `b`.
    pub open spec fn shifted(bx: BlockId, p: int, b: BlockId, i: int) -> int {
        if b == bx && i > p {
            i - 1
        } else {
            i
        }
    }

    /// A run does not notice that an instruction without side effect, whose
    /// value nothing reads, has been taken out.
    pub proof fn lemma_exec_without(
        self,
        bx: BlockId,
        p: int,
        b: BlockId,
        i: int,
        s: Store,
        s2: Store,
        calls: Calls,
        fuel: nat,
    )
        requires
            self.wf(),
            self.has_block(bx),
            0 <= p < self.block(bx).insts.len(),
            !self.inst(self.block(bx).insts[p]).kind.has_side_effect(),
            self.unread(self.block(bx).insts[p]),
            s.same_but(s2, self.block(bx).insts[p]),
        ensures
            self.without_inst_at(bx, p).untied(bx, self.block(bx).insts[p]).exec(
                b,
                Self::shifted(bx, p, b, i),
                s2,
                calls,
                fuel,
            ) == self.exec(b, i, s, calls, fuel),
        decreases fuel, self.block(b).insts.len() - i,
    {
        let x = self.block(bx).insts[p];
        let g = self.without_inst_at(bx, p).untied(bx, x);
        let i2 = Self::shifted(bx, p, b, i);
        self.lemma_untied_frame(bx, p);
        assert(g.has_block(b) == self.has_block(b));
        if self.has_block(b) && 0 <= i < self.block(b).insts.len() {
            let y = self.block(b).insts[i];
            let k = self.inst(y).kind;
            assert(self.has_inst(y));
            if b == bx && i == p {
                // the instruction taken out: its value is read by nothing
                let s1 = Store { regs: s.regs.insert(x, yielded(k, s, calls)), ..s };
                assert(s1.same_but(s2, x));
                self.lemma_exec_without(bx, p, b, i + 1, s1, s2, calls, fuel);
            } else {
                assert(g.block(b).insts[i2] == y);
                assert(g.inst(y).kind == k);
                assert(y != x) by {
                    if y == x {
                        assert(self.block(b).insts[i] == self.block(bx).insts[p]);
                    }
                }
                assert(!k.operands().contains(x));
                assert forall|n: int| 0 <= n < k.operands().len() implies k.operands()[n] != x by {
                    assert(k.operands().contains(k.operands()[n]));
                }
                match k {
                    InstKindView::Ret(v) => {
                        assert(k.operands()[0] == v);
                    },
                    InstKindView::Jmp(t) => {
                        if fuel > 0 {
                            self.lemma_exec_without(bx, p, t, 0, s, s2, calls, (fuel - 1) as nat);
                        }
                    },
                    InstKindView::Br(c, t1, t2) => {
                        assert(k.operands()[0] == c);
                        if fuel > 0 {
                            self.lemma_exec_without(bx, p, t1, 0, s, s2, calls, (fuel - 1) as nat);
                            self.lemma_exec_without(bx, p, t2, 0, s, s2, calls, (fuel - 1) as nat);
                        }
                    },
                    InstKindView::Store(m, v) => {
                        assert(k.operands()[0] == v);
                        let s1 = Store { slots: s.slots.insert(m, s.value(v)), ..s };
                        let t1 = Store { slots: s2.slots.insert(m, s2.value(v)), ..s2 };
                        assert(s.value(v) == s2.value(v));
                        assert(s1.same_but(t1, x)) by {
                            assert forall|m1: MemoryId| s1.slot(m1) == t1.slot(m1) by {
                                assert(s.slot(m1) == s2.slot(m1));
                            }
                            assert forall|v1: InstId| v1 != x implies s1.value(v1) == t1.value(
                                v1,
                            ) by {
                                assert(s.value(v1) == s2.value(v1));
                            }
                        }
                        self.lemma_exec_without(bx, p, b, i + 1, s1, t1, calls, fuel);
                    },
                    _ => {
                        assert(yielded(k, s, calls) == yielded(k, s2, calls)) by {
                            match k {
                                InstKindView::Call(f, args) => {
                                    assert forall|n: int| 0 <= n < args.len() implies s.value(
                                        args[n],
                                    ) == s2.value(args[n]) by {
                                        assert(k.operands()[n] == args[n]);
                                    }
                                    assert(s.values(args) =~= s2.values(args));
                                },
                                InstKindView::Load(m) => {
                                    assert(s.slot(m) == s2.slot(m));
                                },
                                InstKindView::Const(_) => {},
                                _ => {
                                    let (a, c) = binary_operands(k).unwrap();
                                    assert(k.operands()[0] == a);
                                    assert(k.operands()[1] == c);
                                },
                            }
                        }
                        let r = yielded(k, s, calls);
                        let s1 = Store { regs: s.regs.insert(y, r), ..s };
                        let t1 = Store { regs: s2.regs.insert(y, r), ..s2 };
                        assert(s1.same_but(t1, x)) by {
                            assert forall|v: InstId| v != x implies s1.value(v) == t1.value(v) by {
                                assert(s.value(v) == s2.value(v));
                            }
                            assert forall|m1: MemoryId| s1.slot(m1) == t1.slot(m1) by {
                                assert(s.slot(m1) == s2.slot(m1));
                            }
                        }
                        self.lemma_exec_without(bx, p, b, i + 1, s1, t1, calls, fuel);
                    },
                }
            }
        }
    }

    /// Whether `g` has left alone what is read: an instruction that stands
    /// in a block of this function stands in one of `g` or is read by
    /// nothing there, and what nothing reads here nothing reads in `g`.
    pub open spec fn spares(self, g: FunctionView) -> bool {
        &&& forall|v: InstId| #[trigger] self.placed(v) ==> g.placed(v) || g.unread(v)
        &&& forall|v: InstId| #[trigger] self.unread(v) ==> g.unread(v)
    }

    /// Taking out an instruction whose value nothing reads leaves alone
    /// what is read.
    pub proof fn lemma_removal_spares(self, b: BlockId, p: int)
        requires
            self.wf(),
            self.has_block(b),
            0 <= p < self.block(b).insts.len(),
            self.unread(self.block(b).insts[p]),
        ensures
            self.spares(self.without_inst_at(b, p).untied(b, self.block(b).insts[p])),
    {
        let x = self.block(b).insts[p];
        let g = self.without_inst_at(b, p).untied(b, x);
        self.lemma_untied_frame(b, p);
        // what stands in a block of `g` stands in one of this function
        assert forall|c: BlockId, j: int|
            g.has_block(c) && 0 <= j < g.block(c).insts.len() implies self.has_block(c) && ({
            let j0 = if c == b && j >= p {
                j + 1
            } else {
                j
            };
            0 <= j0 < self.block(c).insts.len() && self.block(c).insts[j0] == #[trigger] g.block(
                c,
            ).insts[j] && g.inst(g.block(c).insts[j]).kind == self.inst(
                self.block(c).insts[j0],
            ).kind
        }) by {
            let j0 = if c == b && j >= p {
                j + 1
            } else {
                j
            };
            assert(self.has_inst(self.block(c).insts[j0]));
        }
        assert forall|v: InstId| #[trigger] self.unread(v) implies g.unread(v) by {
            assert forall|c: BlockId, j: int|
                g.has_block(c) && 0 <= j < g.block(c).insts.len() implies !g.inst(
                #[trigger] g.block(c).insts[j],
            ).kind.operands().contains(v) by {
                let j0 = if c == b && j >= p {
                    j + 1
                } else {
                    j
                };
                assert(self.block(c).insts[j0] == g.block(c).insts[j]);
            }
        }
        assert forall|v: InstId| #[trigger] self.placed(v) implies g.placed(v) || g.unread(v) by {
            if v == x {
                assert(self.unread(x));
            } else {
                let (c, j) = choose|c: BlockId, j: int|
                    self.has_block(c) && 0 <= j < self.block(c).insts.len()
                        && #[trigger] self.block(c).insts[j] == v;
                let j1 = if c == b && j > p {
                    j - 1
                } else {
                    j
                };
                assert(g.has_block(c));
                assert(g.block(c).insts[j1] == v);
            }
        }
    }

    /// Visiting the first `k` instructions of block `b` for dead-code
    /// elimination leaves the function consistent and linked, with every
    /// dead instruction out of its block, and running as it did.
    pub proof fn lemma_dce_block_keeps_run(
        self,
        b: BlockId,
        k: nat,
        known: Map<InstId, bool>,
        args: Seq<u64>,
        calls: Calls,
        fuel: nat,
    )
        requires
            self.wf(),
            self.linked(),
            self.rid_of(known),
            self.has_block(b),
            k <= self.block(b).insts.len(),
        ensures
            self.dce_block(b, k, known).0.wf(),
            self.dce_block(b, k, known).0.linked(),
            self.dce_block(b, k, known).0.rid_of(self.dce_block(b, k, known).1),
            self.dce_block(b, k, known).0.blocks == self.blocks,
            self.dce_block(b, k, known).0.run(args, calls, fuel) == self.run(args, calls, fuel),
            self.spares(self.dce_block(b, k, known).0),
        decreases k,
    {
        if k > 0 {
            let insts = self.block(b).insts;
            let x = insts[k - 1];
            let dead = dead_given(self.inst(x), known);
            assert(self.has_inst(x));
            assert(self.inst(x).id == x);
            assert(self.placed(x));
            if dead {
                let c = Cursor { insert_block: Some(b), insert_point: InsertPoint::At(x) };
                let g = self.unbuilt(c);
                self.lemma_block_distinct(b);
                lemma_index_of_first_distinct(insts, k - 1);
                assert(c.index(self) == k - 1);
                assert(g == self.without_inst_at(b, k - 1).untied(b, x));
                // known dead instructions have left, so this one was judged now
                assert(!known.contains_key(x));
                assert(!self.inst(x).kind.has_side_effect());
                assert(self.unread(x)) by {
                    assert forall|c1: BlockId, j: int|
                        self.has_block(c1) && 0 <= j < self.block(c1).insts.len() implies !self.inst(
                        #[trigger] self.block(c1).insts[j],
                    ).kind.operands().contains(x) by {
                        let y = self.block(c1).insts[j];
                        let ops = self.inst(y).kind.operands();
                        if ops.contains(x) {
                            let n = choose|n: int| 0 <= n < ops.len() && ops[n] == x;
                            assert(self.inst_linked(c1, y));
                            assert(self.inst(ops[n]).uses.contains(y));
                            assert(known.contains_key(y) && known[y]);
                            assert(self.placed(y));
                        }
                    }
                }
                self.lemma_without_inst_untied(b, k - 1);
                self.lemma_untied_frame(b, k - 1);
                assert(g.run(args, calls, fuel) == self.run(args, calls, fuel)) by {
                    if self.blocks.len() > 0 {
                        let s = self.entry_store(args);
                        assert(g.entry_store(args) == s);
                        self.lemma_exec_without(b, k - 1, self.blocks[0], 0, s, s, calls, fuel);
                    }
                }
                let known1 = known.insert(x, true);
                assert(g.rid_of(known1)) by {
                    assert forall|u: InstId|
                        known1.contains_key(u) && #[trigger] known1[u] implies !g.placed(u) by {
                        if g.placed(u) {
                            let (c1, j) = choose|c1: BlockId, j: int|
                                g.has_block(c1) && 0 <= j < g.block(c1).insts.len()
                                    && #[trigger] g.block(c1).insts[j] == u;
                            assert(self.has_block(c1));
                            if c1 == b {
                                let j0 = if j < k - 1 {
                                    j
                                } else {
                                    j + 1
                                };
                                assert(self.block(b).insts[j0] == u);
                                assert(self.placed(u));
                                assert(u != x);
                            } else {
                                assert(self.block(c1).insts[j] == u);
                                assert(self.placed(u));
                                if u == x {
                                    assert(self.block(c1).insts[j] == self.block(b).insts[k - 1]);
                                }
                            }
                        }
                    }
                }
                g.lemma_dce_block_keeps_run(b, (k - 1) as nat, known1, args, calls, fuel);
                self.lemma_removal_spares(b, k - 1);
                let h = g.dce_block(b, (k - 1) as nat, known1).0;
                assert(self.spares(h)) by {
                    assert forall|v: InstId| #[trigger] self.placed(v) implies h.placed(v)
                        || h.unread(v) by {
                        if g.placed(v) {
                        } else {
                            assert(g.unread(v));
                        }
                    }
                    assert forall|v: InstId| #[trigger] self.unread(v) implies h.unread(v) by {
                        assert(g.unread(v));
                    }
                }
            } else {
                let known1 = known.insert(x, false);
                assert(self.rid_of(known1));
                self.lemma_dce_block_keeps_run(b, (k - 1) as nat, known1, args, calls, fuel);
            }
        }
    }

    /// Visiting the first `j` blocks of the block order for dead-code
    /// elimination leaves the function running as it did.
    pub proof fn lemma_dce_blocks_keeps_run(
        self,
        j: nat,
        known: Map<InstId, bool>,
        args: Seq<u64>,
        calls: Calls,
        fuel: nat,
    )
        requires
            self.wf(),
            self.linked(),
            self.rid_of(known),
            j <= self.blocks.len(),
        ensures
            self.dce_blocks(j, known).run(args, calls, fuel) == self.run(args, calls, fuel),
            self.spares(self.dce_blocks(j, known)),
        decreases j,
    {
        if j > 0 {
            let b = self.blocks[j - 1];
            assert(self.has_block(b));
            let n = self.block(b).insts.len();
            self.lemma_dce_block_keeps_run(b, n, known, args, calls, fuel);
            let (next, known1) = self.dce_block(b, n, known);
            next.lemma_dce_blocks_keeps_run((j - 1) as nat, known1, args, calls, fuel);
            let h = next.dce_blocks((j - 1) as nat, known1);
            assert(self.spares(h)) by {
                assert forall|v: InstId| #[trigger] self.placed(v) implies h.placed(v) || h.unread(
                    v,
                ) by {
                    if next.placed(v) {
                    } else {
                        assert(next.unread(v));
                    }
                }
                assert forall|v: InstId| #[trigger] self.unread(v) implies h.unread(v) by {
                    assert(next.unread(v));
                }
            }
        }
    }
}

/// Dead-code elimination keeps what a function computes: on the same
/// arguments, with the same answers to its calls and the same number of
/// jumps allowed, the function runs to the same end after it as before.
pub proof fn law_dce_keeps_meaning(f: FunctionView, args: Seq<u64>, calls: Calls, fuel: nat)
    requires
        f.wf(),
        f.linked(),
    ensures
        f.dce_all().run(args, calls, fuel) == f.run(args, calls, fuel),
{
    f.lemma_dce_blocks_keeps_run(f.blocks.len(), Map::empty(), args, calls, fuel);
}

/// Dead-code elimination takes out only what nothing that is left reads:
/// an instruction that stood in a block either still stands in one, or no
/// instruction that stands in a block reads its value. So an instruction
/// with a side effect, which stays, finds every value that it reads, and so
/// on for the instructions that yield those.
pub proof fn law_dce_keeps_what_is_read(f: FunctionView, v: InstId)
    requires
        f.wf(),
        f.linked(),
        f.placed(v),
    ensures
        f.dce_all().placed(v) || f.dce_all().unread(v),
{
    f.lemma_dce_blocks_keeps_run(f.blocks.len(), Map::empty(), Seq::empty(), |g: FunctionId, a: Seq<u64>| 0u64, 0);
}

} // verus!
