//! Identifiers and arena storage for the intermediate representation.
//!
//! Payloads live in `id_arena::Arena`s. Verified code never looks inside an
//! arena: it goes through the functions at the end of this file, whose
//! contracts are taken on trust from the arena crate's source. An arena is
//! modelled by the sequence of its payloads, in allocation order, together with
//! the tag that tells its identifiers from those of every other arena.

use crate::ir::block::Block;
use crate::ir::function::Function;
use crate::ir::inst::Inst;
use crate::ir::memory::Memory;
use id_arena::{Arena, ArenaBehavior, DefaultArenaBehavior};
use vstd::prelude::*;

verus! {

/// Names a basic block of one function.
#[derive(Clone, Copy, Debug, PartialEq, Eq, Structural, Hash)]
pub struct BlockId {
    pub arena: u32,
    pub index: usize,
}

/// Names an instruction of one function. A value instruction's identifier is
/// also the name of the value it produces.
#[derive(Clone, Copy, Debug, PartialEq, Eq, Structural, Hash)]
pub struct InstId {
    pub arena: u32,
    pub index: usize,
}

/// Names a stack slot of one function.
#[derive(Clone, Copy, Debug, PartialEq, Eq, Structural, Hash)]
pub struct MemoryId {
    pub arena: u32,
    pub index: usize,
}

/// Names a function of one module.
#[derive(Clone, Copy, Debug, PartialEq, Eq, Structural, Hash)]
pub struct FunctionId {
    pub arena: u32,
    pub index: usize,
}

impl BlockId {
    /// The position of the block in its arena.
    pub fn index(&self) -> (r: usize)
        ensures
            r == self.index,
    {
        self.index
    }
}

impl InstId {
    /// The position of the instruction in its arena.
    pub fn index(&self) -> (r: usize)
        ensures
            r == self.index,
    {
        self.index
    }
}

impl MemoryId {
    /// The position of the slot in its arena.
    pub fn index(&self) -> (r: usize)
        ensures
            r == self.index,
    {
        self.index
    }
}

impl FunctionId {
    /// The position of the function in its arena.
    pub fn index(&self) -> (r: usize)
        ensures
            r == self.index,
    {
        self.index
    }
}

#[verifier::external_type_specification]
#[verifier::external_body]
#[verifier::reject_recursive_types(T)]
pub struct ExDefaultArenaBehavior<T>(DefaultArenaBehavior<T>);

#[verifier::external_type_specification]
#[verifier::external_body]
#[verifier::reject_recursive_types(T)]
#[verifier::reject_recursive_types(A)]
pub struct ExArena<T, A>(Arena<T, A>);

/// The blocks that a block arena holds, in allocation order.
pub uninterp spec fn block_arena_items(a: Arena<Block>) -> Seq<Block>;

/// The tag that a block arena stamps on the identifiers it issues.
pub uninterp spec fn block_arena_tag(a: Arena<Block>) -> u32;

/// The instructions that an instruction arena holds, in allocation order.
pub uninterp spec fn inst_arena_items(a: Arena<Inst>) -> Seq<Inst>;

/// The tag that an instruction arena stamps on the identifiers it issues.
pub uninterp spec fn inst_arena_tag(a: Arena<Inst>) -> u32;

/// The stack slots that a memory arena holds, in allocation order.
pub uninterp spec fn memory_arena_items(a: Arena<Memory>) -> Seq<Memory>;

/// The tag that a memory arena stamps on the identifiers it issues.
pub uninterp spec fn memory_arena_tag(a: Arena<Memory>) -> u32;

/// The functions that a function arena holds, in allocation order.
pub uninterp spec fn function_arena_items(a: Arena<Function>) -> Seq<Function>;

/// The tag that a function arena stamps on the identifiers it issues.
pub uninterp spec fn function_arena_tag(a: Arena<Function>) -> u32;

// ----- blocks -----

/// `Arena::new`: the new arena holds nothing. Its tag comes from a counter
/// of the process, so nothing is said of it.
#[verifier::external_body]
pub(crate) fn block_arena_new() -> (arena: Arena<Block>)
    ensures
        block_arena_items(arena).len() == 0,
{
    Arena::new()
}

/// `Arena::alloc`: the item is appended, the tag stays, and the identifier
/// returned carries the arena's tag and the item's position. The arena keeps
/// its items in a `Vec`, so their number fits a `usize`.
#[verifier::external_body]
pub(crate) fn block_arena_alloc(arena: &mut Arena<Block>, item: Block) -> (id: BlockId)
    ensures
        block_arena_items(*final(arena)) == block_arena_items(*old(arena)).push(item),
        block_arena_items(*final(arena)).len() <= usize::MAX,
        block_arena_tag(*final(arena)) == block_arena_tag(*old(arena)),
        id.arena == block_arena_tag(*old(arena)),
        id.index == block_arena_items(*old(arena)).len(),
{
    let id = arena.alloc(item);
    BlockId { arena: DefaultArenaBehavior::arena_id(id), index: id.index() }
}

/// `Arena::get`: the item at the identifier's position, provided that the
/// identifier carries this arena's tag and the position is occupied.
#[verifier::external_body]
pub(crate) fn block_arena_get(arena: &Arena<Block>, id: BlockId) -> (item: Option<&Block>)
    ensures
        item.is_some() == (id.arena == block_arena_tag(*arena) && block_arena_items(*arena).len()
            > id.index),
        item.is_some() ==> *item.unwrap() == block_arena_items(*arena)[id.index as int],
{
    arena.get(DefaultArenaBehavior::new_id(id.arena, id.index))
}

/// `IndexMut::index_mut` of the arena: a mutable borrow of the item at the
/// identifier's position; every other item and the tag stay as they are. The
/// call panics on a foreign tag or a vacant position, which `requires` excludes.
#[verifier::external_body]
pub(crate) fn block_arena_get_mut(arena: &mut Arena<Block>, id: BlockId) -> (item: &mut Block)
    requires
        id.arena == block_arena_tag(*old(arena)),
        id.index < block_arena_items(*old(arena)).len(),
    ensures
        *item == block_arena_items(*old(arena))[id.index as int],
        block_arena_items(*final(arena)) == block_arena_items(*old(arena)).update(
            id.index as int,
            *final(item),
        ),
        block_arena_tag(*final(arena)) == block_arena_tag(*old(arena)),
{
    &mut arena[DefaultArenaBehavior::new_id(id.arena, id.index)]
}

// ----- instructions -----

/// `Arena::new`: the new arena holds nothing. Its tag comes from a counter
/// of the process, so nothing is said of it.
#[verifier::external_body]
pub(crate) fn inst_arena_new() -> (arena: Arena<Inst>)
    ensures
        inst_arena_items(arena).len() == 0,
{
    Arena::new()
}

/// `Arena::alloc_with_id`: `f` is called once, with the identifier that the
/// new item will have, and what it returns is appended. The tag stays, and the
/// identifier returned carries the arena's tag and the item's position. The
/// arena keeps its items in a `Vec`, so their number fits a `usize`.
#[verifier::external_body]
pub(crate) fn inst_arena_alloc_with_id<F: FnOnce(InstId) -> Inst>(
    arena: &mut Arena<Inst>,
    f: F,
) -> (id: InstId)
    requires
        call_requires(
            f,
            (InstId {
                arena: inst_arena_tag(*old(arena)),
                index: inst_arena_items(*old(arena)).len() as usize,
            },),
        ),
    ensures
        inst_arena_items(*final(arena)).len() == inst_arena_items(*old(arena)).len() + 1,
        inst_arena_items(*final(arena)).len() <= usize::MAX,
        inst_arena_items(*final(arena)).drop_last() == inst_arena_items(*old(arena)),
        call_ensures(f, (id,), inst_arena_items(*final(arena)).last()),
        inst_arena_tag(*final(arena)) == inst_arena_tag(*old(arena)),
        id.arena == inst_arena_tag(*old(arena)),
        id.index == inst_arena_items(*old(arena)).len(),
{
    let id = arena.alloc_with_id(
        |raw| f(InstId { arena: DefaultArenaBehavior::arena_id(raw), index: raw.index() }),
    );
    InstId { arena: DefaultArenaBehavior::arena_id(id), index: id.index() }
}

/// `Arena::get`: the item at the identifier's position, provided that the
/// identifier carries this arena's tag and the position is occupied.
#[verifier::external_body]
pub(crate) fn inst_arena_get(arena: &Arena<Inst>, id: InstId) -> (item: Option<&Inst>)
    ensures
        item.is_some() == (id.arena == inst_arena_tag(*arena) && inst_arena_items(*arena).len()
            > id.index),
        item.is_some() ==> *item.unwrap() == inst_arena_items(*arena)[id.index as int],
{
    arena.get(DefaultArenaBehavior::new_id(id.arena, id.index))
}

/// `IndexMut::index_mut` of the arena: a mutable borrow of the item at the
/// identifier's position; every other item and the tag stay as they are. The
/// call panics on a foreign tag or a vacant position, which `requires` excludes.
#[verifier::external_body]
pub(crate) fn inst_arena_get_mut(arena: &mut Arena<Inst>, id: InstId) -> (item: &mut Inst)
    requires
        id.arena == inst_arena_tag(*old(arena)),
        id.index < inst_arena_items(*old(arena)).len(),
    ensures
        *item == inst_arena_items(*old(arena))[id.index as int],
        inst_arena_items(*final(arena)) == inst_arena_items(*old(arena)).update(
            id.index as int,
            *final(item),
        ),
        inst_arena_tag(*final(arena)) == inst_arena_tag(*old(arena)),
{
    &mut arena[DefaultArenaBehavior::new_id(id.arena, id.index)]
}

// ----- stack slots -----

/// `Arena::new`: the new arena holds nothing. Its tag comes from a counter
/// of the process, so nothing is said of it.
#[verifier::external_body]
pub(crate) fn memory_arena_new() -> (arena: Arena<Memory>)
    ensures
        memory_arena_items(arena).len() == 0,
{
    Arena::new()
}

/// `Arena::alloc`: the item is appended, the tag stays, and the identifier
/// returned carries the arena's tag and the item's position. The arena keeps
/// its items in a `Vec`, so their number fits a `usize`.
#[verifier::external_body]
pub(crate) fn memory_arena_alloc(arena: &mut Arena<Memory>, item: Memory) -> (id: MemoryId)
    ensures
        memory_arena_items(*final(arena)) == memory_arena_items(*old(arena)).push(item),
        memory_arena_items(*final(arena)).len() <= usize::MAX,
        memory_arena_tag(*final(arena)) == memory_arena_tag(*old(arena)),
        id.arena == memory_arena_tag(*old(arena)),
        id.index == memory_arena_items(*old(arena)).len(),
{
    let id = arena.alloc(item);
    MemoryId { arena: DefaultArenaBehavior::arena_id(id), index: id.index() }
}

/// `Arena::get`: the item at the identifier's position, provided that the
/// identifier carries this arena's tag and the position is occupied.
#[verifier::external_body]
pub(crate) fn memory_arena_get(arena: &Arena<Memory>, id: MemoryId) -> (item: Option<&Memory>)
    ensures
        item.is_some() == (id.arena == memory_arena_tag(*arena) && memory_arena_items(*arena).len()
            > id.index),
        item.is_some() ==> *item.unwrap() == memory_arena_items(*arena)[id.index as int],
{
    arena.get(DefaultArenaBehavior::new_id(id.arena, id.index))
}

/// `IndexMut::index_mut` of the arena: a mutable borrow of the item at the
/// identifier's position; every other item and the tag stay as they are. The
/// call panics on a foreign tag or a vacant position, which `requires` excludes.
#[verifier::external_body]
pub(crate) fn memory_arena_get_mut(arena: &mut Arena<Memory>, id: MemoryId) -> (item: &mut Memory)
    requires
        id.arena == memory_arena_tag(*old(arena)),
        id.index < memory_arena_items(*old(arena)).len(),
    ensures
        *item == memory_arena_items(*old(arena))[id.index as int],
        memory_arena_items(*final(arena)) == memory_arena_items(*old(arena)).update(
            id.index as int,
            *final(item),
        ),
        memory_arena_tag(*final(arena)) == memory_arena_tag(*old(arena)),
{
    &mut arena[DefaultArenaBehavior::new_id(id.arena, id.index)]
}

/// `Arena::len`: the number of items.
#[verifier::external_body]
pub(crate) fn memory_arena_len(arena: &Arena<Memory>) -> (n: usize)
    ensures
        n == memory_arena_items(*arena).len(),
{
    arena.len()
}

// ----- functions -----

/// `Arena::new`: the new arena holds nothing. Its tag comes from a counter
/// of the process, so nothing is said of it.
#[verifier::external_body]
pub(crate) fn function_arena_new() -> (arena: Arena<Function>)
    ensures
        function_arena_items(arena).len() == 0,
{
    Arena::new()
}

/// `Arena::alloc`: the item is appended, the tag stays, and the identifier
/// returned carries the arena's tag and the item's position. The arena keeps
/// its items in a `Vec`, so their number fits a `usize`.
#[verifier::external_body]
pub(crate) fn function_arena_alloc(arena: &mut Arena<Function>, item: Function) -> (id: FunctionId)
    ensures
        function_arena_items(*final(arena)) == function_arena_items(*old(arena)).push(item),
        function_arena_items(*final(arena)).len() <= usize::MAX,
        function_arena_tag(*final(arena)) == function_arena_tag(*old(arena)),
        id.arena == function_arena_tag(*old(arena)),
        id.index == function_arena_items(*old(arena)).len(),
{
    let id = arena.alloc(item);
    FunctionId { arena: DefaultArenaBehavior::arena_id(id), index: id.index() }
}

/// `Arena::get`: the item at the identifier's position, provided that the
/// identifier carries this arena's tag and the position is occupied.
#[verifier::external_body]
pub(crate) fn function_arena_get(arena: &Arena<Function>, id: FunctionId) -> (item: Option<&Function>)
    ensures
        item.is_some() == (id.arena == function_arena_tag(*arena) && function_arena_items(*arena).len()
            > id.index),
        item.is_some() ==> *item.unwrap() == function_arena_items(*arena)[id.index as int],
{
    arena.get(DefaultArenaBehavior::new_id(id.arena, id.index))
}

/// `IndexMut::index_mut` of the arena: a mutable borrow of the item at the
/// identifier's position; every other item and the tag stay as they are. The
/// call panics on a foreign tag or a vacant position, which `requires` excludes.
#[verifier::external_body]
pub(crate) fn function_arena_get_mut(arena: &mut Arena<Function>, id: FunctionId) -> (item: &mut Function)
    requires
        id.arena == function_arena_tag(*old(arena)),
        id.index < function_arena_items(*old(arena)).len(),
    ensures
        *item == function_arena_items(*old(arena))[id.index as int],
        function_arena_items(*final(arena)) == function_arena_items(*old(arena)).update(
            id.index as int,
            *final(item),
        ),
        function_arena_tag(*final(arena)) == function_arena_tag(*old(arena)),
{
    &mut arena[DefaultArenaBehavior::new_id(id.arena, id.index)]
}

/// `Arena::next_id`: the identifier that the next allocation will return.
#[verifier::external_body]
pub(crate) fn function_arena_next_id(arena: &Arena<Function>) -> (id: FunctionId)
    ensures
        id.arena == function_arena_tag(*arena),
        id.index == function_arena_items(*arena).len(),
{
    let id = arena.next_id();
    FunctionId { arena: DefaultArenaBehavior::arena_id(id), index: id.index() }
}

} // verus!
