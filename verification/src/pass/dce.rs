//! Dead-code elimination.
//!
//! The blocks are walked from the last to the first, and each block from its
//! last instruction to its first. An instruction without side effect whose
//! users are all known to be dead is taken out through the builder, which
//! unties it, so that what it read loses it as a user.

use crate::ir::builder::Builder;
use crate::ir::function::{Function, FunctionView};
use crate::ir::inst::{is_dead, Deadness};
use crate::ir::links::{lemma_thinned_count, lemma_thinned_refl, lemma_thinned_step, thinned};
use crate::ir::module::{Module, ModuleView};
use crate::ir::arena::{BlockId, InstId};
use crate::ir::inst::dead_given;
use crate::ir::visitor::{lemma_index_of_first_distinct, Cursor, InsertPoint};
use crate::ty::Type;
use vstd::prelude::*;

verus! {

impl FunctionView {
    /// The function after the first `k` instructions of block `b` have been
    /// visited from the last of them to the first, and what is then known
    /// of dead instructions. Each instruction is judged by what was known
    /// when it was reached, and taken out and untied where it was found dead.
    pub open spec fn dce_block(self, b: BlockId, k: nat, known: Map<InstId, bool>) -> (
        FunctionView,
        Map<InstId, bool>,
    )
        decreases k,
    {
        if k == 0 {
            (self, known)
        } else {
            let x = self.block(b).insts[k - 1];
            let dead = dead_given(self.inst(x), known);
            let next = if dead {
                self.unbuilt(Cursor { insert_block: Some(b), insert_point: InsertPoint::At(x) })
            } else {
                self
            };
            next.dce_block(b, (k - 1) as nat, known.insert(x, dead))
        }
    }

    /// The function after the first `j` blocks of the block order have been
    /// visited from the last of them to the first.
    pub open spec fn dce_blocks(self, j: nat, known: Map<InstId, bool>) -> FunctionView
        decreases j,
    {
        if j == 0 {
            self
        } else {
            let b = self.blocks[j - 1];
            let (next, known1) = self.dce_block(b, self.block(b).insts.len(), known);
            next.dce_blocks((j - 1) as nat, known1)
        }
    }

    /// The function after dead-code elimination.
    pub open spec fn dce_all(self) -> FunctionView {
        self.dce_blocks(self.blocks.len(), Map::empty())
    }
}

/// Only instructions of `f` without side effect are known to be dead.
pub open spec fn sound(known: Map<InstId, bool>, f: FunctionView) -> bool {
    forall|x: InstId|
        known.contains_key(x) && #[trigger] known[x] ==> f.has_inst(x) && !f.inst(
            x,
        ).kind.has_side_effect()
}

/// Every function of the module is consistent and linked.
pub open spec fn module_ready(m: ModuleView) -> bool {
    forall|i: int| 0 <= i < m.functions.len() ==> (#[trigger] m.functions[i]).wf() && m.functions[i].linked()
}

/// Whether `n` is `m` after dead-code elimination in each function.
pub open spec fn module_thinned(m: ModuleView, n: ModuleView) -> bool {
    &&& n.name == m.name
    &&& n.tag == m.tag
    &&& n.functions.len() == m.functions.len()
    &&& forall|i: int|
        0 <= i < m.functions.len() ==> #[trigger] n.functions[i] == m.functions[i].dce_all()
            && thinned(m.functions[i], n.functions[i])
}

/// The pass that removes dead instructions from every function of a module.
pub struct DeadCodeElimination {
    module: Module,
}

impl DeadCodeElimination {
    /// The module that the pass will work on.
    pub closed spec fn module(&self) -> ModuleView {
        self.module@
    }

    pub fn new(module: Module) -> (pass: DeadCodeElimination)
        ensures
            pass.module() == module@,
    {
        DeadCodeElimination { module }
    }

    /// Runs the pass on every function, and gives the module back. Each
    /// function comes out consistent, linked, and a thinning of what it was,
    /// so with no more instructions than before.
    pub fn run(self) -> (r: Module)
        requires
            module_ready(self.module()),
        ensures
            module_ready(r@),
            module_thinned(self.module(), r@),
            forall|i: int|
                0 <= i < r@.functions.len() ==> (#[trigger] r@.functions[i]).count()
                    <= self.module().functions[i].count(),
    {
        let mut pass = self;
        let ghost m0 = pass.module@;
        let fun_ids = pass.module.function_ids();
        let mut n: usize = 0;
        while n < fun_ids.len()
            invariant
                n <= fun_ids@.len(),
                fun_ids@.len() == m0.functions.len(),
                forall|i: int| 0 <= i < fun_ids@.len() ==> #[trigger] fun_ids@[i] == m0.id_at(i),
                module_ready(pass.module@),
                pass.module@.name == m0.name,
                pass.module@.tag == m0.tag,
                pass.module@.functions.len() == m0.functions.len(),
                forall|i: int|
                    0 <= i < n ==> #[trigger] pass.module@.functions[i]
                        == m0.functions[i].dce_all() && thinned(
                        m0.functions[i],
                        pass.module@.functions[i],
                    ),
                forall|i: int|
                    0 <= i < m0.functions.len() ==> (#[trigger] pass.module@.functions[i]).count()
                        <= m0.functions[i].count(),
                forall|i: int|
                    n <= i < m0.functions.len() ==> #[trigger] pass.module@.functions[i]
                        == m0.functions[i],
            decreases fun_ids@.len() - n,
        {
            let fun_id = fun_ids[n];
            assert(fun_id == m0.id_at(n as int));
            assert(pass.module@.has_function(fun_id));
            let ghost before = pass.module@;
            let mut fun = Function::new(String::new(), Type::Int, Vec::new());
            let slot = pass.module.get_function_mut(fun_id);
            core::mem::swap(slot, &mut fun);
            assert(fun@ == m0.functions[n as int]);
            let fun = pass.run_on_function(fun);
            pass.module.replace_function(fun_id, fun);
            proof {
                let now = pass.module@;
                assert(now.functions == before.functions.update(n as int, fun@));
                assert forall|i: int| 0 <= i < m0.functions.len() implies (
                #[trigger] now.functions[i]).wf() && now.functions[i].linked()
                    && now.functions[i].count() <= m0.functions[i].count() by {
                    if i != n {
                        assert(now.functions[i] == before.functions[i]);
                    }
                }
                assert forall|i: int| 0 <= i <= n implies #[trigger] now.functions[i]
                    == m0.functions[i].dce_all() && thinned(m0.functions[i], now.functions[i]) by {
                    if i != n {
                        assert(now.functions[i] == before.functions[i]);
                    }
                }
            }
            n += 1;
        }
        pass.module
    }

    /// Runs the pass on one function. What comes out is what visiting every
    /// instruction from the last to the first gives, each one judged by what
    /// was known when it was reached. It is consistent and linked, and a
    /// thinning of what went in: the same blocks in the same order, each with
    /// a sub-list of its instructions, among them every one that has a side
    /// effect.
    pub fn run_on_function(&mut self, fun: Function) -> (r: Function)
        requires
            fun@.wf(),
            fun@.linked(),
        ensures
            r@ == fun@.dce_all(),
            r@.wf(),
            r@.linked(),
            thinned(fun@, r@),
            r@.count() <= fun@.count(),
            final(self).module() == old(self).module(),
    {
        let ghost f0 = fun@;
        let mut deadness = Deadness::new();
        let mut builder = Builder::new(fun);
        let ghost mut left: int = f0.blocks.len() as int;
        proof {
            lemma_thinned_refl(f0);
        }
        loop
            invariant_except_break
                builder.cursor().insert_block == if left == f0.blocks.len() {
                    None
                } else {
                    Some(f0.blocks[left])
                },
            invariant
                0 <= left <= f0.blocks.len(),
                builder.ready(),
                thinned(f0, builder.fun()),
                builder.fun().blocks == f0.blocks,
                f0.dce_all() == builder.fun().dce_blocks(left as nat, deadness@),
                f0.wf(),
                sound(deadness@, f0),
            ensures
                f0.dce_all() == builder.fun(),
            decreases left,
        {
            proof {
                if left < f0.blocks.len() {
                    lemma_index_of_first_distinct(f0.blocks, left);
                }
            }
            let block_id = match builder.prev_block() {
                Some(b) => b,
                None => {
                    assert(left == 0);
                    break ;
                },
            };
            proof {
                left = left - 1;
            }
            assert(block_id == f0.blocks[left]);
            assert(f0.has_block(f0.blocks[left]));
            let ghost mut k: int = builder.fun().block(block_id).insts.len() as int;
            loop
                invariant_except_break
                    builder.cursor().insert_point == if k == builder.fun().block(
                        block_id,
                    ).insts.len() {
                        InsertPoint::After
                    } else {
                        InsertPoint::At(builder.fun().block(block_id).insts[k])
                    },
                invariant
                    builder.cursor().insert_block == Some(block_id),
                    0 <= k <= builder.fun().block(block_id).insts.len(),
                    0 <= left < f0.blocks.len(),
                    block_id == f0.blocks[left],
                    builder.fun().has_block(block_id),
                    builder.ready(),
                    thinned(f0, builder.fun()),
                    f0.dce_all() == builder.fun().dce_block(block_id, k as nat, deadness@).0.dce_blocks(
                        left as nat,
                        builder.fun().dce_block(block_id, k as nat, deadness@).1,
                    ),
                    f0.wf(),
                    sound(deadness@, f0),
                    builder.fun().blocks == f0.blocks,
                ensures
                    f0.dce_all() == builder.fun().dce_blocks(left as nat, deadness@),
                decreases k,
            {
                let ghost g = builder.fun();
                let ghost insts = g.block(block_id).insts;
                proof {
                    g.lemma_block_distinct(block_id);
                    if k < insts.len() {
                        lemma_index_of_first_distinct(insts, k);
                        assert(insts.contains(insts[k]));
                    }
                }
                let inst_id = match builder.prev_inst() {
                    Some(x) => x,
                    None => {
                        assert(k == 0);
                        break ;
                    },
                };
                proof {
                    k = k - 1;
                    lemma_index_of_first_distinct(insts, k);
                    assert(insts.contains(insts[k]));
                }
                assert(inst_id == insts[k]);
                assert(g.has_inst(g.block(block_id).insts[k]));
                let ghost known = deadness@;
                let dead = is_dead(builder.function().inst(inst_id), &mut deadness);
                proof {
                    assert(g.inst(inst_id).id == inst_id);
                    assert(f0.has_inst(inst_id));
                    assert(g.inst(inst_id).kind == f0.inst(inst_id).kind);
                    assert(deadness@ == known.insert(inst_id, dead));
                    assert(sound(deadness@, f0)) by {
                        assert forall|x: InstId|
                            deadness@.contains_key(x) && #[trigger] deadness@[x] implies f0.has_inst(
                            x,
                        ) && !f0.inst(x).kind.has_side_effect() by {
                            if x != inst_id {
                                assert(known.contains_key(x) && known[x]);
                            }
                        }
                    }
                    assert(g.dce_block(block_id, (k + 1) as nat, known) == (if dead {
                        g.unbuilt(
                            Cursor {
                                insert_block: Some(block_id),
                                insert_point: InsertPoint::At(inst_id),
                            },
                        )
                    } else {
                        g
                    }).dce_block(block_id, k as nat, known.insert(inst_id, dead)));
                }
                if dead {
                    proof {
                        assert(g.inst(inst_id).id == inst_id);
                        assert(!g.inst(inst_id).kind.has_side_effect());
                        lemma_thinned_step(f0, g, block_id, k);
                        g.lemma_untied_frame(block_id, k);
                    }
                    builder.remove_inst();
                }
            }
        }
        proof {
            lemma_thinned_count(f0, builder.fun(), 0);
        }
        builder.retrieve_function()
    }
}

} // verus!
