//! Passes over the intermediate representation.

pub mod dce;
pub mod folder;
pub mod meaning;

use crate::ir::function::Function;
use crate::ir::visitor::{lemma_index_of_first_distinct, Visitor};
use vstd::prelude::*;

verus! {

/// The number of instructions in the blocks of `fun`'s block order.
pub fn count_ops(fun: &Function) -> (count: usize)
    requires
        fun@.wf(),
    ensures
        count == fun@.count(),
{
    proof {
        fun@.lemma_count_fits(0);
    }
    let mut count: usize = 0;
    let mut vis = Visitor::new(fun);
    let ghost mut done: int = 0;
    loop
        invariant_except_break
            vis.cursor().insert_block == if done == 0 {
                None
            } else {
                Some(fun@.blocks[done - 1])
            },
            count + fun@.count_from(done) == fun@.count(),
        invariant
            vis.fun() == fun@,
            fun@.wf(),
            fun@.count() <= usize::MAX,
            0 <= done <= fun@.blocks.len(),
        ensures
            count == fun@.count(),
        decreases fun@.blocks.len() - done,
    {
        proof {
            if done > 0 {
                lemma_index_of_first_distinct(fun@.blocks, done - 1);
            }
        }
        match vis.next_block() {
            Some(block_id) => {
                assert(block_id == fun@.blocks[done]);
                assert(fun@.has_block(fun@.blocks[done]));
                let n = vis.function().block(block_id).insts().len();
                count = count + n;
                proof {
                    done = done + 1;
                }
            },
            None => {
                assert(done == fun@.blocks.len());
                break ;
            },
        }
    }
    count
}

} // verus!
