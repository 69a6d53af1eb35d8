//! Stack slots.

use crate::ir::arena::InstId;
use crate::ir::idset::IdSet;
use vstd::prelude::*;

verus! {

/// One logical stack slot, with the stores and loads that touch it.
pub struct Memory {
    store: IdSet<InstId>,
    load: IdSet<InstId>,
}

/// What a stack slot is, to a contract.
pub struct MemoryView {
    pub store: Set<InstId>,
    pub load: Set<InstId>,
}

impl View for Memory {
    type V = MemoryView;

    closed spec fn view(&self) -> MemoryView {
        MemoryView { store: self.store@, load: self.load@ }
    }
}

impl Memory {
    /// A slot that nothing touches yet.
    pub fn new() -> (m: Memory)
        ensures
            m@ == (MemoryView { store: Set::empty(), load: Set::empty() }),
    {
        Memory { store: IdSet::new(), load: IdSet::new() }
    }

    /// The instructions that store to the slot.
    pub fn store(&self) -> (r: &IdSet<InstId>)
        ensures
            r@ == self@.store,
    {
        &self.store
    }

    /// The instructions that load from the slot.
    pub fn load(&self) -> (r: &IdSet<InstId>)
        ensures
            r@ == self@.load,
    {
        &self.load
    }

    // ----- store -----

    /// Records `inst_id` as a store to the slot.
    pub fn append_store(&mut self, inst_id: InstId)
        ensures
            final(self)@ == (MemoryView { store: old(self)@.store.insert(inst_id), ..old(self)@ }),
    {
        self.store.insert(inst_id);
    }

    /// Forgets `inst_id` as a store to the slot.
    pub fn remove_store(&mut self, inst_id: InstId)
        ensures
            final(self)@ == (MemoryView { store: old(self)@.store.remove(inst_id), ..old(self)@ }),
    {
        self.store.remove(inst_id);
    }

    // ----- load -----

    /// Records `inst_id` as a load from the slot.
    pub fn append_load(&mut self, inst_id: InstId)
        ensures
            final(self)@ == (MemoryView { load: old(self)@.load.insert(inst_id), ..old(self)@ }),
    {
        self.load.insert(inst_id);
    }

    /// Forgets `inst_id` as a load from the slot.
    pub fn remove_load(&mut self, inst_id: InstId)
        ensures
            final(self)@ == (MemoryView { load: old(self)@.load.remove(inst_id), ..old(self)@ }),
    {
        self.load.remove(inst_id);
    }
}

} // verus!
