//! Modules: a name and an arena of functions.

use crate::ir::arena::{
    function_arena_alloc, function_arena_get, function_arena_get_mut, function_arena_items,
    function_arena_new, function_arena_next_id, function_arena_tag, FunctionId,
};
use crate::ir::function::{Function, FunctionView};
use crate::text::str_eq;
use id_arena::Arena;
use vstd::prelude::*;

verus! {

/// A module of the intermediate representation.
pub struct Module {
    name: String,
    functions: Arena<Function>,
}

/// What a module is, to a contract: its name, the tag of its function
/// identifiers, and its functions in the order in which they were added.
pub struct ModuleView {
    pub name: Seq<char>,
    pub tag: u32,
    pub functions: Seq<FunctionView>,
}

impl ModuleView {
    /// Whether `id` names a function of this module.
    pub open spec fn has_function(self, id: FunctionId) -> bool {
        id.arena == self.tag && id.index < self.functions.len()
    }

    /// The function that `id` names.
    pub open spec fn function(self, id: FunctionId) -> FunctionView
        recommends
            self.has_function(id),
    {
        self.functions[id.index as int]
    }

    /// The identifier of the function in slot `i`.
    pub open spec fn id_at(self, i: int) -> FunctionId {
        FunctionId { arena: self.tag, index: i as usize }
    }

    /// The module with `f` in place of the function that `id` names.
    pub open spec fn with_function(self, id: FunctionId, f: FunctionView) -> ModuleView {
        ModuleView { functions: self.functions.update(id.index as int, f), ..self }
    }
}

impl View for Module {
    type V = ModuleView;

    closed spec fn view(&self) -> ModuleView {
        ModuleView {
            name: self.name@,
            tag: function_arena_tag(self.functions),
            functions: function_arena_items(self.functions).map_values(|f: Function| f@),
        }
    }
}

impl Module {
    /// A module without functions.
    pub fn new(name: String) -> (m: Module)
        ensures
            m@.name == name@,
            m@.functions.len() == 0,
    {
        Module { name, functions: function_arena_new() }
    }

    pub fn name(&self) -> (r: &str)
        ensures
            r@ == self@.name,
    {
        self.name.as_str()
    }

    /// The arena that holds the functions.
    pub fn functions(&self) -> (r: &Arena<Function>)
        ensures
            function_arena_items(*r).map_values(|f: Function| f@) == self@.functions,
            function_arena_tag(*r) == self@.tag,
    {
        &self.functions
    }

    /// The number of functions.
    pub fn function_count(&self) -> (r: usize)
        ensures
            r == self@.functions.len(),
    {
        function_arena_next_id(&self.functions).index
    }

    /// Whether `fun_id` names a function of this module.
    pub fn has_function(&self, fun_id: FunctionId) -> (r: bool)
        ensures
            r == self@.has_function(fun_id),
    {
        function_arena_get(&self.functions, fun_id).is_some()
    }

    /// The function that `fun_id` names.
    pub fn get_function(&self, fun_id: FunctionId) -> (r: &Function)
        requires
            self@.has_function(fun_id),
        ensures
            r@ == self@.function(fun_id),
    {
        function_arena_get(&self.functions, fun_id).unwrap()
    }

    /// A mutable borrow of the function that `fun_id` names. What the caller
    /// leaves in it is the function's new value; nothing else changes.
    pub fn get_function_mut(&mut self, fun_id: FunctionId) -> (r: &mut Function)
        requires
            old(self)@.has_function(fun_id),
        ensures
            r@ == old(self)@.function(fun_id),
            final(self)@ == old(self)@.with_function(fun_id, final(r)@),
    {
        let ghost before = function_arena_items(self.functions);
        let r = function_arena_get_mut(&mut self.functions, fun_id);
        proof {
            assert(before.update(fun_id.index as int, *final(r)).map_values(|f: Function| f@)
                =~= before.map_values(|f: Function| f@).update(fun_id.index as int, final(r)@));
        }
        r
    }

    /// The identifiers of the functions, in the order in which they were
    /// added.
    pub fn function_ids(&self) -> (r: Vec<FunctionId>)
        ensures
            r@.len() == self@.functions.len(),
            forall|i: int| 0 <= i < r@.len() ==> #[trigger] r@[i] == self@.id_at(i),
    {
        let next = function_arena_next_id(&self.functions);
        let mut ids: Vec<FunctionId> = Vec::new();
        let mut i: usize = 0;
        while i < next.index
            invariant
                i <= next.index,
                next.arena == self@.tag,
                next.index == self@.functions.len(),
                ids@.len() == i,
                forall|j: int| 0 <= j < i ==> #[trigger] ids@[j] == self@.id_at(j),
            decreases next.index - i,
        {
            ids.push(FunctionId { arena: next.arena, index: i });
            i += 1;
        }
        ids
    }

    // ----- function -----

    /// The first function called `name`, if there is one.
    pub fn get_function_by_name(&self, name: &str) -> (r: Option<FunctionId>)
        ensures
            match r {
                Some(id) => self@.has_function(id) && self@.function(id).name == name@ && forall|
                    j: int,
                | 0 <= j < id.index ==> self@.functions[j].name != name@,
                None => forall|j: int| 0 <= j < self@.functions.len() ==> self@.functions[j].name != name@,
            },
    {
        let next = function_arena_next_id(&self.functions);
        let mut i: usize = 0;
        while i < next.index
            invariant
                i <= next.index,
                next.arena == self@.tag,
                next.index == self@.functions.len(),
                forall|j: int| 0 <= j < i ==> self@.functions[j].name != name@,
            decreases next.index - i,
        {
            let id = FunctionId { arena: next.arena, index: i };
            let f = function_arena_get(&self.functions, id).unwrap();
            if str_eq(f.name(), name) {
                return Some(id);
            }
            i += 1;
        }
        None
    }

    /// Adds `fun` to the module and returns its identifier.
    pub fn add_function(&mut self, fun: Function) -> (id: FunctionId)
        ensures
            id == old(self)@.id_at(old(self)@.functions.len() as int),
            id.index == old(self)@.functions.len(),
            final(self)@ == (ModuleView {
                functions: old(self)@.functions.push(fun@),
                ..old(self)@
            }),
    {
        let ghost before = function_arena_items(self.functions);
        let id = function_arena_alloc(&mut self.functions, fun);
        proof {
            assert(before.push(fun).map_values(|f: Function| f@) =~= before.map_values(
                |f: Function| f@,
            ).push(fun@));
        }
        id
    }

    /// Puts `fun` in the place of the function that `fun_id` names.
    pub fn replace_function(&mut self, fun_id: FunctionId, fun: Function)
        requires
            old(self)@.has_function(fun_id),
        ensures
            final(self)@ == old(self)@.with_function(fun_id, fun@),
    {
        let slot = self.get_function_mut(fun_id);
        *slot = fun;
    }
}

} // verus!
