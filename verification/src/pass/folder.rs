//! Constant folding.
//!
//! The instructions are walked in program order. Where one compares or
//! combines two constants, a constant with the result is built in front of
//! it, and every user of the instruction is made to read that constant. The
//! instruction itself stays, without users, for dead-code elimination to
//! remove.

use crate::ir::arena::{BlockId, InstId};
use crate::ir::builder::Builder;
use crate::ir::function::{Function, FunctionView};
use crate::ir::inst::{Inst, InstKind, InstKindView};
use crate::ir::module::{Module, ModuleView};
use crate::ir::visitor::{lemma_index_of_first_distinct, Cursor, InsertPoint};
use crate::pass::dce::module_ready;
use crate::ty::Type;
use vstd::prelude::*;

verus! {

/// The integer that a 64-bit pattern stands for in two's complement.
pub open spec fn signed(n: u64) -> int {
    if n >= 0x8000_0000_0000_0000 {
        n - 0x1_0000_0000_0000_0000
    } else {
        n as int
    }
}

/// The 64-bit pattern of the quotient of two integers given by their
/// patterns, rounded toward zero. Division by zero gives zero.
pub open spec fn quotient(n1: u64, n2: u64) -> u64 {
    let m1: u64 = if n1 >= 0x8000_0000_0000_0000 {
        (0x1_0000_0000_0000_0000 - n1) as u64
    } else {
        n1
    };
    let m2: u64 = if n2 >= 0x8000_0000_0000_0000 {
        (0x1_0000_0000_0000_0000 - n2) as u64
    } else {
        n2
    };
    if n2 == 0 {
        0
    } else if (n1 >= 0x8000_0000_0000_0000) == (n2 >= 0x8000_0000_0000_0000) {
        m1 / m2
    } else {
        0u64.wrapping_sub(m1 / m2)
    }
}

/// What an instruction of kind `kind` yields on the constants `n1` and `n2`,
/// in two's-complement arithmetic on 64 bits: comparisons are signed and
/// give 1 or 0, sums, differences and products wrap, and division rounds
/// toward zero. Only comparisons and arithmetic fold.
pub open spec fn folded(kind: InstKindView, n1: u64, n2: u64) -> Option<u64> {
    match kind {
        InstKindView::Eq(..) => Some(if n1 == n2 { 1 } else { 0 }),
        InstKindView::Ne(..) => Some(if n1 != n2 { 1 } else { 0 }),
        InstKindView::Lt(..) => Some(if signed(n1) < signed(n2) { 1 } else { 0 }),
        InstKindView::Le(..) => Some(if signed(n1) <= signed(n2) { 1 } else { 0 }),
        InstKindView::Add(..) => Some(n1.wrapping_add(n2)),
        InstKindView::Sub(..) => Some(n1.wrapping_sub(n2)),
        InstKindView::Mul(..) => Some(n1.wrapping_mul(n2)),
        InstKindView::Div(..) => Some(quotient(n1, n2)),
        _ => None,
    }
}

/// The two values that a comparison or arithmetic instruction reads.
pub open spec fn binary_operands(kind: InstKindView) -> Option<(InstId, InstId)> {
    match kind {
        InstKindView::Eq(a, b)
        | InstKindView::Ne(a, b)
        | InstKindView::Lt(a, b)
        | InstKindView::Le(a, b)
        | InstKindView::Add(a, b)
        | InstKindView::Sub(a, b)
        | InstKindView::Mul(a, b)
        | InstKindView::Div(a, b) => Some((a, b)),
        _ => None,
    }
}

impl FunctionView {
    /// The constant that the instruction `id` is, if it is one.
    pub open spec fn const_of(self, id: InstId) -> Option<u64> {
        if self.has_inst(id) {
            match self.inst(id).kind {
                InstKindView::Const(n) => Some(n),
                _ => None,
            }
        } else {
            None
        }
    }

    /// The constant that the instruction `id` can be replaced by: it compares
    /// or combines two constants.
    pub open spec fn fold_of(self, id: InstId) -> Option<u64> {
        if self.has_inst(id) {
            match binary_operands(self.inst(id).kind) {
                Some((v1, v2)) => match (self.const_of(v1), self.const_of(v2)) {
                    (Some(n1), Some(n2)) => folded(self.inst(id).kind, n1, n2),
                    _ => None,
                },
                None => None,
            }
        } else {
            None
        }
    }

    /// The function after the instruction at position `k` of block `b` has
    /// been folded to the constant `n`: the constant stands in front of it,
    /// and has taken over its users.
    pub open spec fn fold_step(self, b: BlockId, k: int, n: u64) -> FunctionView {
        let x = self.block(b).insts[k];
        self.built(
            Cursor { insert_block: Some(b), insert_point: InsertPoint::At(x) },
            InstKindView::Const(n),
        ).with_uses_replaced(x, self.next_inst_id())
    }

    /// The function after the last `rest` instructions of block `b` have
    /// been visited in order, each one folded where it could be when it was
    /// reached.
    pub open spec fn fold_block(self, b: BlockId, rest: nat) -> FunctionView
        decreases rest,
    {
        if rest == 0 {
            self
        } else {
            let k = self.block(b).insts.len() - rest;
            match self.fold_of(self.block(b).insts[k]) {
                Some(n) => self.fold_step(b, k, n).fold_block(b, (rest - 1) as nat),
                None => self.fold_block(b, (rest - 1) as nat),
            }
        }
    }

    /// The function after the last `rest` blocks of the block order have
    /// been visited in order.
    pub open spec fn fold_blocks(self, rest: nat) -> FunctionView
        decreases rest,
    {
        if rest == 0 {
            self
        } else {
            let b = self.blocks[self.blocks.len() - rest];
            self.fold_block(b, self.block(b).insts.len()).fold_blocks((rest - 1) as nat)
        }
    }

    /// The function after constant folding.
    pub open spec fn folded_all(self) -> FunctionView {
        self.fold_blocks(self.blocks.len())
    }
}

/// The constant that `inst` is, if it is one.
pub fn maybe_const(inst: &Inst) -> (r: Option<u64>)
    ensures
        r == match inst@.kind {
            InstKindView::Const(n) => Some(n),
            _ => None,
        },
{
    match inst.kind() {
        InstKind::Const(n) => Some(*n),
        _ => None,
    }
}

/// Whether the pattern `n` stands for a negative integer.
fn is_negative(n: u64) -> (r: bool)
    ensures
        r == (n >= 0x8000_0000_0000_0000),
{
    n >= 0x8000_0000_0000_0000
}

/// Signed comparison of two patterns.
fn signed_less(n1: u64, n2: u64) -> (r: bool)
    ensures
        r == (signed(n1) < signed(n2)),
{
    if is_negative(n1) == is_negative(n2) {
        n1 < n2
    } else {
        is_negative(n1)
    }
}

/// Division of two patterns, rounded toward zero.
fn divide(n1: u64, n2: u64) -> (r: u64)
    ensures
        r == quotient(n1, n2),
{
    if n2 == 0 {
        return 0;
    }
    let m1 = if is_negative(n1) { 0u64.wrapping_sub(n1) } else { n1 };
    let m2 = if is_negative(n2) { 0u64.wrapping_sub(n2) } else { n2 };
    if is_negative(n1) == is_negative(n2) {
        m1 / m2
    } else {
        0u64.wrapping_sub(m1 / m2)
    }
}

/// The constant that the instruction `inst_id` of `fun` can be replaced by,
/// if it compares or combines two constants.
pub fn maybe_fold_const(inst_id: InstId, fun: &Function) -> (r: Option<u64>)
    ensures
        r == fun@.fold_of(inst_id),
{
    if !fun.has_inst(inst_id) {
        return None;
    }
    let kind = fun.inst(inst_id).kind();
    let (v1, v2) = match kind {
        InstKind::Eq(v1, v2)
        | InstKind::Ne(v1, v2)
        | InstKind::Lt(v1, v2)
        | InstKind::Le(v1, v2)
        | InstKind::Add(v1, v2)
        | InstKind::Sub(v1, v2)
        | InstKind::Mul(v1, v2)
        | InstKind::Div(v1, v2) => (*v1, *v2),
        _ => {
            return None;
        },
    };
    if !fun.has_inst(v1) || !fun.has_inst(v2) {
        return None;
    }
    let n1 = match maybe_const(fun.inst(v1)) {
        Some(n) => n,
        None => {
            return None;
        },
    };
    let n2 = match maybe_const(fun.inst(v2)) {
        Some(n) => n,
        None => {
            return None;
        },
    };
    match kind {
        InstKind::Eq(..) => Some(if n1 == n2 { 1 } else { 0 }),
        InstKind::Ne(..) => Some(if n1 != n2 { 1 } else { 0 }),
        InstKind::Lt(..) => Some(if signed_less(n1, n2) { 1 } else { 0 }),
        InstKind::Le(..) => Some(if !signed_less(n2, n1) { 1 } else { 0 }),
        InstKind::Add(..) => Some(n1.wrapping_add(n2)),
        InstKind::Sub(..) => Some(n1.wrapping_sub(n2)),
        InstKind::Mul(..) => Some(n1.wrapping_mul(n2)),
        InstKind::Div(..) => Some(divide(n1, n2)),
        _ => None,
    }
}

/// Whether `n` is `m` with each function folded.
pub open spec fn module_folded(m: ModuleView, n: ModuleView) -> bool {
    &&& n.name == m.name
    &&& n.tag == m.tag
    &&& n.functions.len() == m.functions.len()
    &&& forall|i: int|
        0 <= i < m.functions.len() ==> #[trigger] n.functions[i] == m.functions[i].folded_all()
}

/// The pass that folds constants in every function of a module.
pub struct ConstantFolding {
    module: Module,
}

impl ConstantFolding {
    /// The module that the pass will work on.
    pub closed spec fn module(&self) -> ModuleView {
        self.module@
    }

    pub fn new(module: Module) -> (pass: ConstantFolding)
        ensures
            pass.module() == module@,
    {
        ConstantFolding { module }
    }

    /// Runs the pass on every function, and gives the module back.
    pub fn run(self) -> (r: Module)
        requires
            module_ready(self.module()),
        ensures
            module_ready(r@),
            module_folded(self.module(), r@),
    {
        let mut pass = self;
        let ghost m0 = pass.module@;
        let fun_ids = pass.module.function_ids();
        let mut n: usize = 0;
        while n < fun_ids.len()
            invariant
                n <= fun_ids@.len(),
                fun_ids@.len() == m0.functions.len(),
                forall|i: int| 0 <= i < fun_ids@.len() ==> #[trigger] fun_ids@[i] == m0.id_at(i),
                module_ready(pass.module@),
                pass.module@.name == m0.name,
                pass.module@.tag == m0.tag,
                pass.module@.functions.len() == m0.functions.len(),
                forall|i: int|
                    0 <= i < n ==> #[trigger] pass.module@.functions[i]
                        == m0.functions[i].folded_all(),
                forall|i: int|
                    n <= i < m0.functions.len() ==> #[trigger] pass.module@.functions[i]
                        == m0.functions[i],
            decreases fun_ids@.len() - n,
        {
            let fun_id = fun_ids[n];
            assert(fun_id == m0.id_at(n as int));
            assert(pass.module@.has_function(fun_id));
            let ghost before = pass.module@;
            let mut fun = Function::new(String::new(), Type::Int, Vec::new());
            let slot = pass.module.get_function_mut(fun_id);
            core::mem::swap(slot, &mut fun);
            assert(fun@ == m0.functions[n as int]);
            let fun = pass.run_on_function(fun);
            pass.module.replace_function(fun_id, fun);
            proof {
                let now = pass.module@;
                assert(now.functions == before.functions.update(n as int, fun@));
                assert forall|i: int| 0 <= i < m0.functions.len() implies (
                #[trigger] now.functions[i]).wf() && now.functions[i].linked() by {
                    if i != n {
                        assert(now.functions[i] == before.functions[i]);
                    }
                }
            }
            n += 1;
        }
        pass.module
    }

    /// Runs the pass on one function. What comes out is consistent and
    /// linked, has the same blocks in the same order, and is what folding
    /// each instruction in program order gives.
    pub fn run_on_function(&mut self, fun: Function) -> (r: Function)
        requires
            fun@.wf(),
            fun@.linked(),
        ensures
            r@ == fun@.folded_all(),
            r@.wf(),
            r@.linked(),
            r@.blocks == fun@.blocks,
            final(self).module() == old(self).module(),
    {
        let ghost f0 = fun@;
        let ghost goal = f0.folded_all();
        let mut builder = Builder::new(fun);
        let ghost mut rest_blocks: nat = f0.blocks.len();
        loop
            invariant_except_break
                builder.cursor().insert_block == if rest_blocks == f0.blocks.len() {
                    None
                } else {
                    Some(f0.blocks[f0.blocks.len() - rest_blocks - 1])
                },
            invariant
                rest_blocks <= f0.blocks.len(),
                builder.ready(),
                builder.fun().blocks == f0.blocks,
                goal == builder.fun().fold_blocks(rest_blocks),
            ensures
                goal == builder.fun(),
            decreases rest_blocks,
        {
            proof {
                if rest_blocks < f0.blocks.len() {
                    lemma_index_of_first_distinct(f0.blocks, f0.blocks.len() - rest_blocks - 1);
                }
            }
            let block_id = match builder.next_block() {
                Some(b) => b,
                None => {
                    assert(rest_blocks == 0);
                    break ;
                },
            };
            assert(block_id == f0.blocks[f0.blocks.len() - rest_blocks]);
            assert(builder.fun().has_block(builder.fun().blocks[f0.blocks.len() - rest_blocks]));
            let ghost mut rest: nat = builder.fun().block(block_id).insts.len();
            loop
                invariant_except_break
                    builder.cursor().insert_point == if rest == builder.fun().block(
                        block_id,
                    ).insts.len() {
                        InsertPoint::Before
                    } else {
                        InsertPoint::At(
                            builder.fun().block(block_id).insts[builder.fun().block(
                                block_id,
                            ).insts.len() - rest - 1],
                        )
                    },
                invariant
                    builder.cursor().insert_block == Some(block_id),
                    rest <= builder.fun().block(block_id).insts.len(),
                    0 < rest_blocks <= f0.blocks.len(),
                    block_id == f0.blocks[f0.blocks.len() - rest_blocks],
                    builder.fun().has_block(block_id),
                    builder.ready(),
                    builder.fun().blocks == f0.blocks,
                    goal == builder.fun().fold_block(block_id, rest).fold_blocks(
                        (rest_blocks - 1) as nat,
                    ),
                ensures
                    builder.cursor().insert_block == Some(block_id),
                    builder.ready(),
                    builder.fun().blocks == f0.blocks,
                    goal == builder.fun().fold_blocks((rest_blocks - 1) as nat),
                decreases rest,
            {
                let ghost g = builder.fun();
                let ghost insts = g.block(block_id).insts;
                let ghost k = insts.len() - rest;
                proof {
                    g.lemma_block_distinct(block_id);
                    if k > 0 {
                        lemma_index_of_first_distinct(insts, k - 1);
                        assert(insts.contains(insts[k - 1]));
                    }
                }
                let inst_id = match builder.next_inst() {
                    Some(x) => x,
                    None => {
                        assert(rest == 0);
                        break ;
                    },
                };
                assert(inst_id == insts[k]);
                proof {
                    lemma_index_of_first_distinct(insts, k);
                    assert(insts.contains(insts[k]));
                    assert(g.has_inst(g.block(block_id).insts[k]));
                }
                match maybe_fold_const(inst_id, builder.function()) {
                    Some(n) => {
                        let new_const = builder.build_const(n);
                        proof {
                            g.lemma_tied_frame(
                                block_id,
                                k,
                                crate::ir::inst::InstView {
                                    kind: InstKindView::Const(n),
                                    id: g.next_inst_id(),
                                    uses: Set::empty(),
                                },
                            );
                        }
                        builder.replace_all_uses(inst_id, new_const);
                        proof {
                            assert(builder.fun() == g.fold_step(block_id, k, n));
                            let h = builder.fun();
                            assert(h.block(block_id).insts == insts.insert(k, new_const));
                            assert(h.block(block_id).insts[k + 1] == inst_id);
                            assert(h.blocks == f0.blocks);
                        }
                    },
                    None => {},
                }
                proof {
                    rest = (rest - 1) as nat;
                }
            }
            proof {
                rest_blocks = (rest_blocks - 1) as nat;
            }
        }
        builder.retrieve_function()
    }
}

} // verus!
