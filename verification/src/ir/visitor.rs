//! A cursor over a function, and the read-only visitor that carries one.

use crate::ir::arena::{BlockId, InstId};
use crate::ir::function::{Function, FunctionView};
use vstd::prelude::*;

verus! {

/// Where the cursor stands within its block.
#[derive(Clone, Copy, Debug, PartialEq, Eq, Structural)]
pub enum InsertPoint {
    /// Before the first instruction.
    Before,
    /// At the given instruction.
    At(InstId),
    /// After the last instruction.
    After,
    /// In no block.
    Nowhere,
}

/// The position of a visitor or builder: a block, and a point within it.
#[derive(Clone, Copy, Debug, PartialEq, Eq, Structural)]
pub struct Cursor {
    pub insert_block: Option<BlockId>,
    pub insert_point: InsertPoint,
}

/// The cursor that stands nowhere.
pub open spec fn cleared() -> Cursor {
    Cursor { insert_block: None, insert_point: InsertPoint::Nowhere }
}

/// The element that follows `cur` in `s`, or the first one where there is no
/// `cur`. There is none after the last element, nor after one that `s` does
/// not hold.
pub open spec fn next_in<T>(s: Seq<T>, cur: Option<T>) -> Option<T> {
    match cur {
        None => if s.len() > 0 {
            Some(s[0])
        } else {
            None
        },
        Some(x) => match s.index_of_first(x) {
            Some(i) => if i + 1 < s.len() {
                Some(s[i + 1])
            } else {
                None
            },
            None => None,
        },
    }
}

/// The element that precedes `cur` in `s`, or the last one where there is no
/// `cur`. There is none before the first element, nor before one that `s`
/// does not hold.
pub open spec fn prev_in<T>(s: Seq<T>, cur: Option<T>) -> Option<T> {
    match cur {
        None => if s.len() > 0 {
            Some(s[s.len() - 1])
        } else {
            None
        },
        Some(x) => match s.index_of_first(x) {
            Some(i) => if i > 0 {
                Some(s[i - 1])
            } else {
                None
            },
            None => None,
        },
    }
}

/// Where a step forward from `point` leads in a block that holds `insts`, and
/// the instruction then under the cursor. At the block's end the point
/// becomes `After`. A point at an instruction that the block does not hold
/// stays where it is.
pub open spec fn step_forward(insts: Seq<InstId>, point: InsertPoint) -> (Option<InstId>, InsertPoint) {
    match point {
        InsertPoint::Before => match next_in(insts, None) {
            Some(n) => (Some(n), InsertPoint::At(n)),
            None => (None, InsertPoint::After),
        },
        InsertPoint::At(x) => if insts.contains(x) {
            match next_in(insts, Some(x)) {
                Some(n) => (Some(n), InsertPoint::At(n)),
                None => (None, InsertPoint::After),
            }
        } else {
            (None, point)
        },
        _ => (None, point),
    }
}

/// Where a step backward from `point` leads in a block that holds `insts`,
/// and the instruction then under the cursor. At the block's start the point
/// becomes `Before`. A point at an instruction that the block does not hold
/// stays where it is.
pub open spec fn step_backward(insts: Seq<InstId>, point: InsertPoint) -> (Option<InstId>, InsertPoint) {
    match point {
        InsertPoint::After => match prev_in(insts, None) {
            Some(n) => (Some(n), InsertPoint::At(n)),
            None => (None, InsertPoint::Before),
        },
        InsertPoint::At(x) => if insts.contains(x) {
            match prev_in(insts, Some(x)) {
                Some(n) => (Some(n), InsertPoint::At(n)),
                None => (None, InsertPoint::Before),
            }
        } else {
            (None, point)
        },
        _ => (None, point),
    }
}

/// The first position of `x` in `s` is `i` where `x` stands at `i` and
/// nowhere before.
pub proof fn lemma_index_of_first<T>(s: Seq<T>, x: T, i: int)
    requires
        0 <= i < s.len(),
        s[i] == x,
        forall|j: int| 0 <= j < i ==> s[j] != x,
    ensures
        s.index_of_first(x) == Some(i),
{
    s.index_of_first_ensures(x);
    assert(s.contains(x));
}

/// `x` has no first position in `s` where `s` does not hold it.
pub proof fn lemma_index_of_first_none<T>(s: Seq<T>, x: T)
    requires
        !s.contains(x),
    ensures
        s.index_of_first(x) == None::<int>,
{
    s.index_of_first_ensures(x);
}

impl Cursor {
    /// A cursor that stands nowhere.
    pub fn new() -> (c: Cursor)
        ensures
            c == cleared(),
    {
        Cursor { insert_block: None, insert_point: InsertPoint::Nowhere }
    }

    /// Whether the cursor names a place where an instruction can be put or
    /// taken: at an instruction of its block, or after the block's last one.
    pub open spec fn at_index(self, f: FunctionView) -> bool {
        match self.insert_block {
            Some(b) => f.has_block(b) && match self.insert_point {
                InsertPoint::At(x) => f.block(b).insts.contains(x),
                InsertPoint::After => true,
                _ => false,
            },
            None => false,
        }
    }

    /// The position in its block that the cursor names: that of the
    /// instruction it stands at, or the block's length where it stands after
    /// the last one.
    pub open spec fn index(self, f: FunctionView) -> int
        recommends
            self.at_index(f),
    {
        match self.insert_point {
            InsertPoint::At(x) => f.block(self.insert_block.unwrap()).insts.index_of_first(x).unwrap(),
            _ => f.block(self.insert_block.unwrap()).insts.len() as int,
        }
    }

    pub fn clear_position(&mut self)
        ensures
            *final(self) == cleared(),
    {
        self.insert_block = None;
        self.insert_point = InsertPoint::Nowhere;
    }

    pub fn position_before(&mut self, block_id: BlockId)
        ensures
            *final(self) == (Cursor {
                insert_block: Some(block_id),
                insert_point: InsertPoint::Before,
            }),
    {
        self.insert_block = Some(block_id);
        self.insert_point = InsertPoint::Before;
    }

    pub fn position_at(&mut self, block_id: BlockId, inst_id: InstId)
        ensures
            *final(self) == (Cursor {
                insert_block: Some(block_id),
                insert_point: InsertPoint::At(inst_id),
            }),
    {
        self.insert_block = Some(block_id);
        self.insert_point = InsertPoint::At(inst_id);
    }

    pub fn position_at_end(&mut self, block_id: BlockId)
        ensures
            *final(self) == (Cursor {
                insert_block: Some(block_id),
                insert_point: InsertPoint::After,
            }),
    {
        self.insert_block = Some(block_id);
        self.insert_point = InsertPoint::After;
    }

    /// The block and the position in it that the cursor names.
    pub fn get_insert_index(&self, f: &Function) -> (r: (BlockId, usize))
        requires
            self.at_index(f@),
        ensures
            Some(r.0) == self.insert_block,
            r.1 == self.index(f@),
            r.1 <= f@.block(r.0).insts.len(),
            self.insert_point is After <==> r.1 == f@.block(r.0).insts.len(),
    {
        let block_id = self.insert_block.unwrap();
        let block = f.block(block_id);
        let index = match self.insert_point {
            InsertPoint::At(inst_id) => {
                let i = block.inst_position(inst_id).unwrap();
                proof {
                    lemma_index_of_first(block@.insts, inst_id, i as int);
                }
                i
            },
            _ => block.insts().len(),
        };
        (block_id, index)
    }

    /// Puts the cursor at the instruction that stands at `index` in block
    /// `block_id`.
    pub fn position_at_index(&mut self, f: &Function, block_id: BlockId, index: usize)
        requires
            f@.has_block(block_id),
            index < f@.block(block_id).insts.len(),
        ensures
            *final(self) == (Cursor {
                insert_block: Some(block_id),
                insert_point: InsertPoint::At(f@.block(block_id).insts[index as int]),
            }),
    {
        let inst_id = f.block(block_id).insts()[index];
        self.position_at(block_id, inst_id);
    }

    /// Moves to the start of the next block in the block order, or of the
    /// first block where the cursor stands nowhere. Where there is no such
    /// block, the cursor is cleared.
    pub fn next_block(&mut self, f: &Function) -> (r: Option<BlockId>)
        ensures
            r == next_in(f@.blocks, old(self).insert_block),
            *final(self) == match r {
                Some(b) => Cursor { insert_block: Some(b), insert_point: InsertPoint::Before },
                None => cleared(),
            },
    {
        let blocks = f.blocks();
        let next_block = match self.insert_block {
            Some(block_id) => match f.block_position(block_id) {
                Some(pos) => {
                    proof {
                        lemma_index_of_first(f@.blocks, block_id, pos as int);
                    }
                    if pos < blocks.len() - 1 {
                        Some(blocks[pos + 1])
                    } else {
                        None
                    }
                },
                None => {
                    proof {
                        lemma_index_of_first_none(f@.blocks, block_id);
                    }
                    None
                },
            },
            None => if blocks.len() > 0 {
                Some(blocks[0])
            } else {
                None
            },
        };
        match next_block {
            Some(block_id) => self.position_before(block_id),
            None => self.clear_position(),
        }
        next_block
    }

    /// Moves to the end of the previous block in the block order, or of the
    /// last block where the cursor stands nowhere. Where there is no such
    /// block, the cursor is cleared.
    pub fn prev_block(&mut self, f: &Function) -> (r: Option<BlockId>)
        ensures
            r == prev_in(f@.blocks, old(self).insert_block),
            *final(self) == match r {
                Some(b) => Cursor { insert_block: Some(b), insert_point: InsertPoint::After },
                None => cleared(),
            },
    {
        let blocks = f.blocks();
        let prev_block = match self.insert_block {
            Some(block_id) => match f.block_position(block_id) {
                Some(pos) => {
                    proof {
                        lemma_index_of_first(f@.blocks, block_id, pos as int);
                    }
                    if pos == 0 {
                        None
                    } else {
                        Some(blocks[pos - 1])
                    }
                },
                None => {
                    proof {
                        lemma_index_of_first_none(f@.blocks, block_id);
                    }
                    None
                },
            },
            None => if blocks.len() > 0 {
                Some(blocks[blocks.len() - 1])
            } else {
                None
            },
        };
        match prev_block {
            Some(block_id) => self.position_at_end(block_id),
            None => self.clear_position(),
        }
        prev_block
    }

    /// Steps to the next instruction of the cursor's block and returns it.
    /// Past the last one the cursor stays in the block, after its end, and
    /// `None` is returned. A cursor that names no block of `f` does not move.
    pub fn next_inst(&mut self, f: &Function) -> (r: Option<InstId>)
        ensures
            final(self).insert_block == old(self).insert_block,
            match old(self).insert_block {
                Some(b) if f@.has_block(b) => (r, final(self).insert_point) == step_forward(
                    f@.block(b).insts,
                    old(self).insert_point,
                ),
                _ => r is None && final(self).insert_point == old(self).insert_point,
            },
    {
        let block_id = match self.insert_block {
            Some(b) => b,
            None => { return None; },
        };
        if !f.has_block(block_id) {
            return None;
        }
        let insts = f.block(block_id).insts();
        match self.insert_point {
            InsertPoint::Before => {
                if insts.len() == 0 {
                    self.position_at_end(block_id);
                    None
                } else {
                    self.position_at_index(f, block_id, 0);
                    Some(insts[0])
                }
            },
            InsertPoint::At(inst_id) => {
                match f.block(block_id).inst_position(inst_id) {
                    Some(index) => {
                        proof {
                            lemma_index_of_first(insts@, inst_id, index as int);
                        }
                        if index == insts.len() - 1 {
                            self.position_at_end(block_id);
                            None
                        } else {
                            self.position_at_index(f, block_id, index + 1);
                            Some(insts[index + 1])
                        }
                    },
                    None => None,
                }
            },
            _ => None,
        }
    }

    /// Steps to the previous instruction of the cursor's block and returns
    /// it. Before the first one the cursor stays in the block, before its
    /// start, and `None` is returned. A cursor that names no block of `f`
    /// does not move.
    pub fn prev_inst(&mut self, f: &Function) -> (r: Option<InstId>)
        ensures
            final(self).insert_block == old(self).insert_block,
            match old(self).insert_block {
                Some(b) if f@.has_block(b) => (r, final(self).insert_point) == step_backward(
                    f@.block(b).insts,
                    old(self).insert_point,
                ),
                _ => r is None && final(self).insert_point == old(self).insert_point,
            },
    {
        let block_id = match self.insert_block {
            Some(b) => b,
            None => { return None; },
        };
        if !f.has_block(block_id) {
            return None;
        }
        let insts = f.block(block_id).insts();
        match self.insert_point {
            InsertPoint::After => {
                if insts.len() == 0 {
                    self.position_before(block_id);
                    None
                } else {
                    let index = insts.len() - 1;
                    self.position_at_index(f, block_id, index);
                    Some(insts[index])
                }
            },
            InsertPoint::At(inst_id) => {
                match f.block(block_id).inst_position(inst_id) {
                    Some(index) => {
                        proof {
                            lemma_index_of_first(insts@, inst_id, index as int);
                        }
                        if index == 0 {
                            self.position_before(block_id);
                            None
                        } else {
                            self.position_at_index(f, block_id, index - 1);
                            Some(insts[index - 1])
                        }
                    },
                    None => None,
                }
            },
            _ => None,
        }
    }
}

/// In a sequence without duplicates, the first position of the element at
/// `i` is `i`.
pub proof fn lemma_index_of_first_distinct<T>(s: Seq<T>, i: int)
    requires
        s.no_duplicates(),
        0 <= i < s.len(),
    ensures
        s.index_of_first(s[i]) == Some(i),
{
    lemma_index_of_first(s, s[i], i);
}

/// A cursor over a function that it may read and not change.
pub struct Visitor<'a> {
    function: &'a Function,
    cursor: Cursor,
}

impl<'a> Visitor<'a> {
    /// The function that is visited.
    pub closed spec fn fun(&self) -> FunctionView {
        self.function@
    }

    /// The visitor's position.
    pub closed spec fn cursor(&self) -> Cursor {
        self.cursor
    }

    /// A visitor of `function` that stands nowhere.
    pub fn new(function: &'a Function) -> (v: Visitor<'a>)
        ensures
            v.fun() == function@,
            v.cursor() == cleared(),
    {
        Visitor { function, cursor: Cursor::new() }
    }

    /// The function that is visited.
    pub fn function(&self) -> (f: &'a Function)
        ensures
            f@ == self.fun(),
    {
        self.function
    }

    pub fn get_insert_block(&self) -> (r: Option<BlockId>)
        ensures
            r == self.cursor().insert_block,
    {
        self.cursor.insert_block
    }

    pub fn get_insert_point(&self) -> (r: InsertPoint)
        ensures
            r == self.cursor().insert_point,
    {
        self.cursor.insert_point
    }

    pub fn clear_position(&mut self)
        ensures
            final(self).fun() == old(self).fun(),
            final(self).cursor() == cleared(),
    {
        self.cursor.clear_position();
    }

    pub fn position_before(&mut self, block_id: BlockId)
        ensures
            final(self).fun() == old(self).fun(),
            final(self).cursor() == (Cursor {
                insert_block: Some(block_id),
                insert_point: InsertPoint::Before,
            }),
    {
        self.cursor.position_before(block_id);
    }

    pub fn position_at(&mut self, block_id: BlockId, inst_id: InstId)
        ensures
            final(self).fun() == old(self).fun(),
            final(self).cursor() == (Cursor {
                insert_block: Some(block_id),
                insert_point: InsertPoint::At(inst_id),
            }),
    {
        self.cursor.position_at(block_id, inst_id);
    }

    pub fn position_at_end(&mut self, block_id: BlockId)
        ensures
            final(self).fun() == old(self).fun(),
            final(self).cursor() == (Cursor {
                insert_block: Some(block_id),
                insert_point: InsertPoint::After,
            }),
    {
        self.cursor.position_at_end(block_id);
    }

    /// The block and the position in it that the cursor names.
    pub fn get_insert_index(&self) -> (r: (BlockId, usize))
        requires
            self.cursor().at_index(self.fun()),
        ensures
            Some(r.0) == self.cursor().insert_block,
            r.1 == self.cursor().index(self.fun()),
            r.1 <= self.fun().block(r.0).insts.len(),
            self.cursor().insert_point is After <==> r.1 == self.fun().block(r.0).insts.len(),
    {
        self.cursor.get_insert_index(self.function)
    }

    /// Puts the cursor at the instruction that stands at `index` in block
    /// `block_id`.
    pub fn position_at_index(&mut self, block_id: BlockId, index: usize)
        requires
            old(self).fun().has_block(block_id),
            index < old(self).fun().block(block_id).insts.len(),
        ensures
            final(self).fun() == old(self).fun(),
            final(self).cursor() == (Cursor {
                insert_block: Some(block_id),
                insert_point: InsertPoint::At(old(self).fun().block(block_id).insts[index as int]),
            }),
    {
        self.cursor.position_at_index(self.function, block_id, index);
    }

    /// Moves to the start of the next block in the block order, or of the
    /// first block where the cursor stands nowhere. Where there is no such
    /// block, the cursor is cleared.
    pub fn next_block(&mut self) -> (r: Option<BlockId>)
        ensures
            final(self).fun() == old(self).fun(),
            r == next_in(old(self).fun().blocks, old(self).cursor().insert_block),
            final(self).cursor() == match r {
                Some(b) => Cursor { insert_block: Some(b), insert_point: InsertPoint::Before },
                None => cleared(),
            },
    {
        self.cursor.next_block(self.function)
    }

    /// Moves to the end of the previous block in the block order, or of the
    /// last block where the cursor stands nowhere. Where there is no such
    /// block, the cursor is cleared.
    pub fn prev_block(&mut self) -> (r: Option<BlockId>)
        ensures
            final(self).fun() == old(self).fun(),
            r == prev_in(old(self).fun().blocks, old(self).cursor().insert_block),
            final(self).cursor() == match r {
                Some(b) => Cursor { insert_block: Some(b), insert_point: InsertPoint::After },
                None => cleared(),
            },
    {
        self.cursor.prev_block(self.function)
    }

    /// Steps to the next instruction of the cursor's block and returns it.
    /// Past the last one the cursor stays in the block, after its end, and
    /// `None` is returned.
    pub fn next_inst(&mut self) -> (r: Option<InstId>)
        ensures
            final(self).fun() == old(self).fun(),
            final(self).cursor().insert_block == old(self).cursor().insert_block,
            match old(self).cursor().insert_block {
                Some(b) if old(self).fun().has_block(b) => (r, final(self).cursor().insert_point)
                    == step_forward(old(self).fun().block(b).insts, old(self).cursor().insert_point),
                _ => r is None && final(self).cursor().insert_point == old(
                    self,
                ).cursor().insert_point,
            },
    {
        self.cursor.next_inst(self.function)
    }

    /// Steps to the previous instruction of the cursor's block and returns
    /// it. Before the first one the cursor stays in the block, before its
    /// start, and `None` is returned.
    pub fn prev_inst(&mut self) -> (r: Option<InstId>)
        ensures
            final(self).fun() == old(self).fun(),
            final(self).cursor().insert_block == old(self).cursor().insert_block,
            match old(self).cursor().insert_block {
                Some(b) if old(self).fun().has_block(b) => (r, final(self).cursor().insert_point)
                    == step_backward(
                    old(self).fun().block(b).insts,
                    old(self).cursor().insert_point,
                ),
                _ => r is None && final(self).cursor().insert_point == old(
                    self,
                ).cursor().insert_point,
            },
    {
        self.cursor.prev_inst(self.function)
    }
}

} // verus!
