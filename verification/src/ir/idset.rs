//! Small sets of identifiers.
//!
//! Predecessors, successors, users, loads and stores are sets: an identifier
//! that is added twice is held once. The elements are kept in the order in
//! which they first arrived, so that walking a set is deterministic.

use crate::ir::arena::{BlockId, InstId};
use vstd::prelude::*;

verus! {

/// What a set needs of its elements: a test for equality that agrees with
/// equality in specifications.
pub trait Ident: Copy + Sized {
    fn same(self, other: Self) -> (r: bool)
        ensures
            r == (self == other),
    ;
}

impl Ident for BlockId {
    fn same(self, other: Self) -> (r: bool) {
        self == other
    }
}

impl Ident for InstId {
    fn same(self, other: Self) -> (r: bool) {
        self == other
    }
}

/// A finite set of identifiers.
pub struct IdSet<T: Ident> {
    items: Vec<T>,
}

impl<T: Ident> View for IdSet<T> {
    type V = Set<T>;

    closed spec fn view(&self) -> Set<T> {
        self.items@.to_set()
    }
}

impl<T: Ident> IdSet<T> {
    #[verifier::type_invariant]
    spec fn distinct(self) -> bool {
        self.items@.no_duplicates()
    }

    /// The empty set.
    pub fn new() -> (s: Self)
        ensures
            s@ == Set::<T>::empty(),
    {
        let s = IdSet { items: Vec::new() };
        assert(s.items@.to_set() =~= Set::<T>::empty());
        s
    }

    /// The position of `id` among the elements, if it is one.
    fn position(&self, id: T) -> (r: Option<usize>)
        ensures
            match r {
                Some(i) => i < self.items@.len() && self.items@[i as int] == id,
                None => !self.items@.contains(id),
            },
    {
        let mut i: usize = 0;
        while i < self.items.len()
            invariant
                i <= self.items@.len(),
                forall|j: int| 0 <= j < i ==> self.items@[j] != id,
            decreases self.items@.len() - i,
        {
            if self.items[i].same(id) {
                return Some(i);
            }
            i += 1;
        }
        None
    }

    /// Whether `id` is in the set.
    pub fn contains(&self, id: T) -> (r: bool)
        ensures
            r == self@.contains(id),
    {
        self.position(id).is_some()
    }

    /// The number of elements.
    pub fn len(&self) -> (r: usize)
        ensures
            r == self@.len(),
            self@.finite(),
    {
        proof {
            use_type_invariant(self);
            self.items@.unique_seq_to_set();
        }
        self.items.len()
    }

    /// Whether the set has no element.
    pub fn is_empty(&self) -> (r: bool)
        ensures
            r == (self@ == Set::<T>::empty()),
    {
        proof {
            use_type_invariant(self);
            self.items@.unique_seq_to_set();
            if self.items@.len() == 0 {
                assert(self@ =~= Set::<T>::empty());
            } else {
                assert(self@.contains(self.items@[0]));
            }
        }
        self.items.len() == 0
    }

    /// Adds `id`; a set that already holds it stays as it is.
    pub fn insert(&mut self, id: T)
        ensures
            final(self)@ == old(self)@.insert(id),
    {
        proof {
            use_type_invariant(&*self);
        }
        if self.position(id).is_none() {
            let ghost before = self.items@;
            let mut items: Vec<T> = Vec::new();
            let mut i: usize = 0;
            while i < self.items.len()
                invariant
                    i <= self.items@.len(),
                    self.items@ == before,
                    items@ == before.subrange(0, i as int),
                decreases self.items@.len() - i,
            {
                items.push(self.items[i]);
                assert(items@ =~= before.subrange(0, i + 1));
                i += 1;
            }
            items.push(id);
            assert(items@ =~= before.push(id));
            assert(items@.to_set() =~= before.to_set().insert(id)) by {
                assert forall|x: T| items@.to_set().contains(x) <==> before.to_set().insert(
                    id,
                ).contains(x) by {
                    if before.contains(x) {
                        let j = choose|j: int| 0 <= j < before.len() && before[j] == x;
                        assert(items@[j] == x);
                    }
                    if x == id {
                        assert(items@[before.len() as int] == x);
                    }
                }
            }
            *self = IdSet { items };
        } else {
            assert(self.items@.to_set().insert(id) =~= self.items@.to_set());
        }
    }

    /// Takes `id` out; a set that does not hold it stays as it is.
    pub fn remove(&mut self, id: T)
        ensures
            final(self)@ == old(self)@.remove(id),
    {
        proof {
            use_type_invariant(&*self);
        }
        match self.position(id) {
            Some(at) => {
                let ghost before = self.items@;
                let mut items: Vec<T> = Vec::new();
                let mut i: usize = 0;
                while i < self.items.len()
                    invariant
                        i <= self.items@.len(),
                        at < self.items@.len(),
                        self.items@ == before,
                        items@ == if i <= at {
                            before.subrange(0, i as int)
                        } else {
                            before.remove(at as int).subrange(0, i - 1)
                        },
                    decreases self.items@.len() - i,
                {
                    if i != at {
                        items.push(self.items[i]);
                    }
                    assert(items@ =~= if i + 1 <= at {
                        before.subrange(0, i + 1)
                    } else {
                        before.remove(at as int).subrange(0, i as int)
                    });
                    i += 1;
                }
                assert(items@ =~= before.remove(at as int));
                assert(items@.to_set() =~= before.to_set().remove(id)) by {
                    assert forall|x: T| items@.to_set().contains(x) <==> before.to_set().remove(
                        id,
                    ).contains(x) by {
                        if items@.contains(x) {
                            let j = choose|j: int| 0 <= j < items@.len() && items@[j] == x;
                            if j < at {
                                assert(before[j] == x);
                            } else {
                                assert(before[j + 1] == x);
                            }
                        }
                        if before.contains(x) && x != id {
                            let j = choose|j: int| 0 <= j < before.len() && before[j] == x;
                            if j < at {
                                assert(items@[j] == x);
                            } else {
                                assert(items@[j - 1] == x);
                            }
                        }
                    }
                }
                *self = IdSet { items };
            },
            None => {
                assert(self.items@.to_set().remove(id) =~= self.items@.to_set());
            },
        }
    }

    /// Takes every element out.
    pub fn clear(&mut self)
        ensures
            final(self)@ == Set::<T>::empty(),
    {
        let items: Vec<T> = Vec::new();
        assert(items@.to_set() =~= Set::<T>::empty());
        *self = IdSet { items };
    }

    /// The elements, each once, in the order in which they first arrived.
    pub fn as_slice(&self) -> (r: &[T])
        ensures
            r@.no_duplicates(),
            r@.to_set() == self@,
    {
        proof {
            use_type_invariant(self);
        }
        self.items.as_slice()
    }
}

} // verus!
