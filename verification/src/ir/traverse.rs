//! Walking a whole function with a cursor, forward and backward.

use crate::ir::arena::{BlockId, InstId};
use crate::ir::function::{Function, FunctionView};
use crate::ir::visitor::{lemma_index_of_first_distinct, InsertPoint, Visitor};
use vstd::prelude::*;

verus! {

impl FunctionView {
    /// The first `k` instructions of block `b`, each with its block, in
    /// order.
    pub open spec fn block_pairs(self, b: BlockId, k: int) -> Seq<(BlockId, InstId)>
        decreases k,
    {
        if k <= 0 {
            Seq::empty()
        } else {
            self.block_pairs(b, k - 1).push((b, self.block(b).insts[k - 1]))
        }
    }

    /// The instructions of the first `j` blocks of the block order, each
    /// with its block, in program order.
    pub open spec fn pairs_upto(self, j: int) -> Seq<(BlockId, InstId)>
        decreases j,
    {
        if j <= 0 {
            Seq::empty()
        } else {
            self.pairs_upto(j - 1) + self.block_pairs(
                self.blocks[j - 1],
                self.block(self.blocks[j - 1]).insts.len() as int,
            )
        }
    }

    /// The instructions of the function, each with its block, in program
    /// order.
    pub open spec fn pairs(self) -> Seq<(BlockId, InstId)> {
        self.pairs_upto(self.blocks.len() as int)
    }

    /// The instructions of block `b` from position `k` on, each with its
    /// block, last first.
    pub open spec fn block_pairs_down(self, b: BlockId, k: int) -> Seq<(BlockId, InstId)>
        decreases self.block(b).insts.len() - k,
    {
        if k < 0 || k >= self.block(b).insts.len() {
            Seq::empty()
        } else {
            self.block_pairs_down(b, k + 1).push((b, self.block(b).insts[k]))
        }
    }

    /// The instructions of the blocks from position `j` of the block order
    /// on, each with its block, last first.
    pub open spec fn pairs_down(self, j: int) -> Seq<(BlockId, InstId)>
        decreases self.blocks.len() - j,
    {
        if j < 0 || j >= self.blocks.len() {
            Seq::empty()
        } else {
            self.pairs_down(j + 1) + self.block_pairs_down(self.blocks[j], 0)
        }
    }

    /// A block walked backward from position `k` is the rest of the block
    /// walked forward, reversed.
    pub proof fn lemma_block_pairs_down(self, b: BlockId, k: int)
        requires
            0 <= k <= self.block(b).insts.len(),
        ensures
            self.block_pairs_down(b, k) + self.block_pairs(b, k).reverse() == self.block_pairs(
                b,
                self.block(b).insts.len() as int,
            ).reverse(),
        decreases self.block(b).insts.len() - k,
    {
        let n = self.block(b).insts.len() as int;
        if k < n {
            self.lemma_block_pairs_down(b, k + 1);
            let up = self.block_pairs(b, k);
            let x = (b, self.block(b).insts[k]);
            self.lemma_block_pairs_len(b, k);
            assert(self.block_pairs(b, k + 1) == up.push(x));
            assert(up.push(x).reverse() =~= seq![x] + up.reverse());
            assert(self.block_pairs_down(b, k + 1).push(x) + up.reverse()
                =~= self.block_pairs_down(b, k + 1) + (seq![x] + up.reverse()));
        } else {
            assert(self.block_pairs_down(b, k) + self.block_pairs(b, k).reverse()
                =~= self.block_pairs(b, k).reverse());
        }
    }

    /// The first `k` instructions of a block give `k` pairs, the `i`th of
    /// them the block with its `i`th instruction.
    pub proof fn lemma_block_pairs_len(self, b: BlockId, k: int)
        requires
            0 <= k,
        ensures
            self.block_pairs(b, k).len() == k,
            forall|i: int|
                0 <= i < k ==> #[trigger] self.block_pairs(b, k)[i] == (b, self.block(b).insts[i]),
        decreases k,
    {
        if k > 0 {
            self.lemma_block_pairs_len(b, k - 1);
        }
    }

    /// The blocks walked backward from position `j` are the rest of the
    /// function walked forward, reversed.
    pub proof fn lemma_pairs_down(self, j: int)
        requires
            0 <= j <= self.blocks.len(),
        ensures
            self.pairs_down(j) + self.pairs_upto(j).reverse() == self.pairs().reverse(),
        decreases self.blocks.len() - j,
    {
        let n = self.blocks.len() as int;
        if j < n {
            self.lemma_pairs_down(j + 1);
            let b = self.blocks[j];
            let up = self.pairs_upto(j);
            let all = self.block_pairs(b, self.block(b).insts.len() as int);
            self.lemma_block_pairs_down(b, 0);
            assert(self.block_pairs(b, 0).reverse() =~= Seq::<(BlockId, InstId)>::empty());
            assert(self.block_pairs_down(b, 0) =~= all.reverse());
            assert(self.pairs_upto(j + 1) == up + all);
            assert((up + all).reverse() =~= all.reverse() + up.reverse());
            assert(self.pairs_down(j + 1) + all.reverse() + up.reverse() =~= self.pairs_down(
                j + 1,
            ) + (all.reverse() + up.reverse()));
        } else {
            assert(self.pairs_down(j) + self.pairs_upto(j).reverse() =~= self.pairs_upto(
                j,
            ).reverse());
        }
    }

    /// Every pair among the instructions of the first `j` blocks is an
    /// instruction at its place: the block stands in the block order before
    /// position `j`, and lists the instruction.
    pub proof fn lemma_pairs_placed(self, j: int)
        requires
            0 <= j <= self.blocks.len(),
        ensures
            forall|i: int|
                0 <= i < self.pairs_upto(j).len() ==> exists|p: int, k: int|
                    0 <= p < j && 0 <= k < self.block(self.blocks[p]).insts.len()
                        && #[trigger] self.pairs_upto(j)[i] == (
                        self.blocks[p],
                        #[trigger] self.block(self.blocks[p]).insts[k],
                    ),
        decreases j,
    {
        if j > 0 {
            self.lemma_pairs_placed(j - 1);
            let b = self.blocks[j - 1];
            let n = self.block(b).insts.len() as int;
            self.lemma_block_pairs_len(b, n);
            let head = self.pairs_upto(j - 1);
            let tail = self.block_pairs(b, n);
            assert forall|i: int| 0 <= i < self.pairs_upto(j).len() implies exists|p: int, k: int|
                0 <= p < j && 0 <= k < self.block(self.blocks[p]).insts.len()
                    && #[trigger] self.pairs_upto(j)[i] == (
                    self.blocks[p],
                    #[trigger] self.block(self.blocks[p]).insts[k],
                ) by {
                if i < head.len() {
                    assert(self.pairs_upto(j)[i] == head[i]);
                    let (p, k) = choose|p: int, k: int|
                        0 <= p < j - 1 && 0 <= k < self.block(self.blocks[p]).insts.len() && head[i]
                            == (self.blocks[p], #[trigger] self.block(self.blocks[p]).insts[k]);
                    assert(0 <= p < j && self.pairs_upto(j)[i] == (
                        self.blocks[p],
                        self.block(self.blocks[p]).insts[k],
                    ));
                } else {
                    let k = i - head.len();
                    assert(self.pairs_upto(j)[i] == tail[k]);
                    assert(tail[k] == (b, self.block(b).insts[k]));
                    assert(0 <= j - 1 < j && self.pairs_upto(j)[i] == (
                        self.blocks[j - 1],
                        self.block(self.blocks[j - 1]).insts[k],
                    ));
                }
            }
        }
    }
}

/// The instructions of `fun`, each with its block, as a cursor meets them
/// on the way forward: block by block, and in each block from the first
/// instruction to the last.
pub fn forward_pairs(fun: &Function) -> (r: Vec<(BlockId, InstId)>)
    requires
        fun@.wf(),
    ensures
        r@ == fun@.pairs(),
{
    let mut pairs: Vec<(BlockId, InstId)> = Vec::new();
    let mut vis = Visitor::new(fun);
    let ghost mut done: int = 0;
    loop
        invariant_except_break
            vis.cursor().insert_block == if done == 0 {
                None
            } else {
                Some(fun@.blocks[done - 1])
            },
            pairs@ == fun@.pairs_upto(done),
        invariant
            vis.fun() == fun@,
            fun@.wf(),
            0 <= done <= fun@.blocks.len(),
        ensures
            pairs@ == fun@.pairs(),
        decreases fun@.blocks.len() - done,
    {
        proof {
            if done > 0 {
                lemma_index_of_first_distinct(fun@.blocks, done - 1);
            }
        }
        let block_id = match vis.next_block() {
            Some(b) => b,
            None => {
                break ;
            },
        };
        assert(block_id == fun@.blocks[done]);
        assert(fun@.has_block(fun@.blocks[done]));
        let ghost insts = fun@.block(block_id).insts;
        let ghost mut k: int = 0;
        proof {
            fun@.lemma_block_distinct(block_id);
            assert(pairs@ + fun@.block_pairs(block_id, 0) =~= pairs@);
        }
        loop
            invariant_except_break
                vis.cursor().insert_point == if k == 0 {
                    InsertPoint::Before
                } else {
                    InsertPoint::At(insts[k - 1])
                },
            invariant
                vis.fun() == fun@,
                vis.cursor().insert_block == Some(block_id),
                fun@.has_block(block_id),
                insts == fun@.block(block_id).insts,
                insts.no_duplicates(),
                0 <= k <= insts.len(),
                0 <= done < fun@.blocks.len(),
                block_id == fun@.blocks[done],
                pairs@ == fun@.pairs_upto(done) + fun@.block_pairs(block_id, k),
            ensures
                vis.cursor().insert_block == Some(block_id),
                pairs@ == fun@.pairs_upto(done + 1),
            decreases insts.len() - k,
        {
            proof {
                if k > 0 {
                    lemma_index_of_first_distinct(insts, k - 1);
                    assert(insts.contains(insts[k - 1]));
                }
            }
            let inst_id = match vis.next_inst() {
                Some(x) => x,
                None => {
                    assert(k == insts.len());
                    break ;
                },
            };
            assert(inst_id == insts[k]);
            let ghost before = pairs@;
            pairs.push((block_id, inst_id));
            proof {
                assert(fun@.block_pairs(block_id, k + 1) == fun@.block_pairs(block_id, k).push(
                    (block_id, insts[k]),
                ));
                assert(pairs@ =~= fun@.pairs_upto(done) + fun@.block_pairs(block_id, k + 1));
                k = k + 1;
            }
        }
        proof {
            done = done + 1;
        }
    }
    pairs
}

/// The instructions of `fun`, each with its block, as a cursor meets them
/// on the way backward: from the last block to the first, and in each block
/// from the last instruction to the first.
pub fn backward_pairs(fun: &Function) -> (r: Vec<(BlockId, InstId)>)
    requires
        fun@.wf(),
    ensures
        r@ == fun@.pairs().reverse(),
{
    let mut pairs: Vec<(BlockId, InstId)> = Vec::new();
    let mut vis = Visitor::new(fun);
    let ghost mut left: int = fun@.blocks.len() as int;
    loop
        invariant_except_break
            vis.cursor().insert_block == if left == fun@.blocks.len() {
                None
            } else {
                Some(fun@.blocks[left])
            },
            pairs@ == fun@.pairs_down(left),
        invariant
            vis.fun() == fun@,
            fun@.wf(),
            0 <= left <= fun@.blocks.len(),
        ensures
            pairs@ == fun@.pairs_down(0),
        decreases left,
    {
        proof {
            if left < fun@.blocks.len() {
                lemma_index_of_first_distinct(fun@.blocks, left);
            }
        }
        let block_id = match vis.prev_block() {
            Some(b) => b,
            None => {
                assert(left == 0);
                break ;
            },
        };
        proof {
            left = left - 1;
        }
        assert(block_id == fun@.blocks[left]);
        assert(fun@.has_block(fun@.blocks[left]));
        let ghost insts = fun@.block(block_id).insts;
        let ghost mut k: int = insts.len() as int;
        proof {
            fun@.lemma_block_distinct(block_id);
            assert(pairs@ + fun@.block_pairs_down(block_id, k) =~= pairs@);
        }
        loop
            invariant_except_break
                vis.cursor().insert_point == if k == insts.len() {
                    InsertPoint::After
                } else {
                    InsertPoint::At(insts[k])
                },
            invariant
                vis.fun() == fun@,
                vis.cursor().insert_block == Some(block_id),
                fun@.has_block(block_id),
                insts == fun@.block(block_id).insts,
                insts.no_duplicates(),
                0 <= k <= insts.len(),
                0 <= left < fun@.blocks.len(),
                block_id == fun@.blocks[left],
                pairs@ == fun@.pairs_down(left + 1) + fun@.block_pairs_down(block_id, k),
            ensures
                vis.cursor().insert_block == Some(block_id),
                pairs@ == fun@.pairs_down(left),
            decreases k,
        {
            proof {
                if k < insts.len() {
                    lemma_index_of_first_distinct(insts, k);
                    assert(insts.contains(insts[k]));
                }
            }
            let inst_id = match vis.prev_inst() {
                Some(x) => x,
                None => {
                    assert(k == 0);
                    break ;
                },
            };
            assert(inst_id == insts[k - 1]);
            pairs.push((block_id, inst_id));
            proof {
                k = k - 1;
                assert(fun@.block_pairs_down(block_id, k) == fun@.block_pairs_down(
                    block_id,
                    k + 1,
                ).push((block_id, insts[k])));
                assert(pairs@ =~= fun@.pairs_down(left + 1) + fun@.block_pairs_down(block_id, k));
            }
        }
    }
    proof {
        fun@.lemma_pairs_down(0);
        assert(fun@.pairs_upto(0).reverse() =~= Seq::<(BlockId, InstId)>::empty());
        assert(fun@.pairs_down(0) + Seq::<(BlockId, InstId)>::empty() =~= fun@.pairs_down(0));
    }
    pairs
}

/// A walk forward and a walk backward over a consistent function meet the
/// same instructions, each at its place in the function and each once: what
/// the one walk yields is the other's yield reversed, so the two have the
/// same elements with the same multiplicities, and no pair of a block and an
/// instruction occurs twice.
pub proof fn law_traversals_agree(f: FunctionView)
    requires
        f.wf(),
    ensures
        f.pairs().reverse().to_multiset() == f.pairs().to_multiset(),
        f.pairs().no_duplicates(),
        f.pairs().reverse().no_duplicates(),
        forall|i: int|
            0 <= i < f.pairs().len() ==> f.blocks.contains((#[trigger] f.pairs()[i]).0) && f.block(
                f.pairs()[i].0,
            ).insts.contains(f.pairs()[i].1),
{
    let s = f.pairs();
    s.lemma_reverse_to_multiset();
    f.lemma_pairs_placed(f.blocks.len() as int);
    assert forall|i: int| 0 <= i < s.len() implies f.blocks.contains((#[trigger] s[i]).0)
        && f.block(s[i].0).insts.contains(s[i].1) by {
        let (p, k) = choose|p: int, k: int|
            0 <= p < f.blocks.len() && 0 <= k < f.block(f.blocks[p]).insts.len() && s[i] == (
                f.blocks[p],
                #[trigger] f.block(f.blocks[p]).insts[k],
            );
        assert(f.blocks[p] == s[i].0);
        assert(f.block(f.blocks[p]).insts[k] == s[i].1);
    }
    f.lemma_pairs_distinct(f.blocks.len() as int);
    assert(s.reverse().no_duplicates()) by {
        assert forall|i: int, j: int|
            0 <= i < s.reverse().len() && 0 <= j < s.reverse().len() && i != j implies s.reverse()[i]
            != s.reverse()[j] by {
            assert(s.reverse()[i] == s[s.len() - 1 - i]);
            assert(s.reverse()[j] == s[s.len() - 1 - j]);
        }
    }
}

impl FunctionView {
    /// No instruction occurs twice among those of the first `j` blocks.
    pub proof fn lemma_pairs_distinct(self, j: int)
        requires
            self.wf(),
            0 <= j <= self.blocks.len(),
        ensures
            self.pairs_upto(j).no_duplicates(),
        decreases j,
    {
        if j > 0 {
            self.lemma_pairs_distinct(j - 1);
            self.lemma_pairs_placed(j - 1);
            let b = self.blocks[j - 1];
            let n = self.block(b).insts.len() as int;
            self.lemma_block_pairs_len(b, n);
            self.lemma_block_distinct(b);
            assert(self.has_block(self.blocks[j - 1]));
            let head = self.pairs_upto(j - 1);
            let tail = self.block_pairs(b, n);
            let s = self.pairs_upto(j);
            assert forall|x: int, y: int| 0 <= x < s.len() && 0 <= y < s.len() && x != y implies s[x]
                != s[y] by {
                if x < head.len() && y < head.len() {
                    assert(s[x] == head[x] && s[y] == head[y]);
                } else if x >= head.len() && y >= head.len() {
                    assert(s[x] == tail[x - head.len()] && s[y] == tail[y - head.len()]);
                } else {
                    let lo = if x < head.len() { x } else { y };
                    let hi = if x < head.len() { y } else { x };
                    assert(s[lo] == head[lo]);
                    assert(s[hi] == tail[hi - head.len()]);
                    let (p, k) = choose|p: int, k: int|
                        0 <= p < j - 1 && 0 <= k < self.block(self.blocks[p]).insts.len()
                            && head[lo] == (
                            self.blocks[p],
                            #[trigger] self.block(self.blocks[p]).insts[k],
                        );
                    assert(self.blocks[p] != self.blocks[j - 1]);
                }
            }
        }
    }
}

} // verus!
