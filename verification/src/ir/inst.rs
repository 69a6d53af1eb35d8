//! Instructions.

use crate::ir::arena::{BlockId, FunctionId, InstId, MemoryId};
use crate::ir::idset::IdSet;
use vstd::prelude::*;

verus! {

/// What an instruction does. The first group produces a value, the second
/// has an effect and produces none.
pub enum InstKind {
    // Value
    Eq(InstId, InstId),
    Ne(InstId, InstId),
    Lt(InstId, InstId),
    Le(InstId, InstId),
    Add(InstId, InstId),
    Sub(InstId, InstId),
    Mul(InstId, InstId),
    Div(InstId, InstId),
    Load(MemoryId),
    Call(FunctionId, Vec<InstId>),
    Const(u64),
    // Effect
    Br(InstId, BlockId, BlockId),
    Jmp(BlockId),
    Store(MemoryId, InstId),
    Ret(InstId),
}

/// `new` where `x` is `old`, and `x` otherwise.
pub open spec fn swapped(x: InstId, old: InstId, new: InstId) -> InstId {
    if x == old {
        new
    } else {
        x
    }
}

/// `new` where `x` is `old`, and `x` otherwise.
pub fn swap_id(x: InstId, old: InstId, new: InstId) -> (r: InstId)
    ensures
        r == swapped(x, old, new),
{
    if x == old {
        new
    } else {
        x
    }
}

/// What an instruction kind is, to a contract.
pub enum InstKindView {
    Eq(InstId, InstId),
    Ne(InstId, InstId),
    Lt(InstId, InstId),
    Le(InstId, InstId),
    Add(InstId, InstId),
    Sub(InstId, InstId),
    Mul(InstId, InstId),
    Div(InstId, InstId),
    Load(MemoryId),
    Call(FunctionId, Seq<InstId>),
    Const(u64),
    Br(InstId, BlockId, BlockId),
    Jmp(BlockId),
    Store(MemoryId, InstId),
    Ret(InstId),
}

impl View for InstKind {
    type V = InstKindView;

    open spec fn view(&self) -> InstKindView {
        match *self {
            InstKind::Eq(a, b) => InstKindView::Eq(a, b),
            InstKind::Ne(a, b) => InstKindView::Ne(a, b),
            InstKind::Lt(a, b) => InstKindView::Lt(a, b),
            InstKind::Le(a, b) => InstKindView::Le(a, b),
            InstKind::Add(a, b) => InstKindView::Add(a, b),
            InstKind::Sub(a, b) => InstKindView::Sub(a, b),
            InstKind::Mul(a, b) => InstKindView::Mul(a, b),
            InstKind::Div(a, b) => InstKindView::Div(a, b),
            InstKind::Load(m) => InstKindView::Load(m),
            InstKind::Call(f, args) => InstKindView::Call(f, args@),
            InstKind::Const(n) => InstKindView::Const(n),
            InstKind::Br(c, b1, b2) => InstKindView::Br(c, b1, b2),
            InstKind::Jmp(b) => InstKindView::Jmp(b),
            InstKind::Store(m, v) => InstKindView::Store(m, v),
            InstKind::Ret(v) => InstKindView::Ret(v),
        }
    }
}

impl InstKindView {
    /// The values that the instruction reads, in the order in which it names
    /// them.
    pub open spec fn operands(self) -> Seq<InstId> {
        match self {
            InstKindView::Eq(a, b) => seq![a, b],
            InstKindView::Ne(a, b) => seq![a, b],
            InstKindView::Lt(a, b) => seq![a, b],
            InstKindView::Le(a, b) => seq![a, b],
            InstKindView::Add(a, b) => seq![a, b],
            InstKindView::Sub(a, b) => seq![a, b],
            InstKindView::Mul(a, b) => seq![a, b],
            InstKindView::Div(a, b) => seq![a, b],
            InstKindView::Load(_) => seq![],
            InstKindView::Call(_, args) => args,
            InstKindView::Const(_) => seq![],
            InstKindView::Br(c, _, _) => seq![c],
            InstKindView::Jmp(_) => seq![],
            InstKindView::Store(_, v) => seq![v],
            InstKindView::Ret(v) => seq![v],
        }
    }

    /// The blocks that the instruction may pass control to.
    pub open spec fn targets(self) -> Seq<BlockId> {
        match self {
            InstKindView::Br(_, b1, b2) => seq![b1, b2],
            InstKindView::Jmp(b) => seq![b],
            _ => seq![],
        }
    }

    /// Whether the instruction has an effect: `Br`, `Jmp`, `Store` or `Ret`.
    pub open spec fn has_side_effect(self) -> bool {
        self is Br || self is Jmp || self is Store || self is Ret
    }

    /// Whether the instruction closes a block: `Br`, `Jmp` or `Ret`.
    pub open spec fn is_terminator(self) -> bool {
        self is Br || self is Jmp || self is Ret
    }

    /// The kind with every operand `old` replaced by `new`.
    pub open spec fn replace_operand(self, old: InstId, new: InstId) -> InstKindView {
        let r = |x: InstId| swapped(x, old, new);
        match self {
            InstKindView::Eq(a, b) => InstKindView::Eq(r(a), r(b)),
            InstKindView::Ne(a, b) => InstKindView::Ne(r(a), r(b)),
            InstKindView::Lt(a, b) => InstKindView::Lt(r(a), r(b)),
            InstKindView::Le(a, b) => InstKindView::Le(r(a), r(b)),
            InstKindView::Add(a, b) => InstKindView::Add(r(a), r(b)),
            InstKindView::Sub(a, b) => InstKindView::Sub(r(a), r(b)),
            InstKindView::Mul(a, b) => InstKindView::Mul(r(a), r(b)),
            InstKindView::Div(a, b) => InstKindView::Div(r(a), r(b)),
            InstKindView::Load(m) => InstKindView::Load(m),
            InstKindView::Call(f, args) => InstKindView::Call(f, args.map_values(r)),
            InstKindView::Const(n) => InstKindView::Const(n),
            InstKindView::Br(c, b1, b2) => InstKindView::Br(r(c), b1, b2),
            InstKindView::Jmp(b) => InstKindView::Jmp(b),
            InstKindView::Store(m, v) => InstKindView::Store(m, r(v)),
            InstKindView::Ret(v) => InstKindView::Ret(r(v)),
        }
    }
}

/// An instruction: what it does, its own identifier, and the instructions
/// that read the value it produces.
pub struct Inst {
    kind: InstKind,
    id: InstId,
    use_: IdSet<InstId>,
}

/// What an instruction is, to a contract.
pub struct InstView {
    pub kind: InstKindView,
    pub id: InstId,
    pub uses: Set<InstId>,
}

impl View for Inst {
    type V = InstView;

    closed spec fn view(&self) -> InstView {
        InstView { kind: self.kind@, id: self.id, uses: self.use_@ }
    }
}

impl Inst {
    /// An instruction that nothing uses yet.
    pub fn new(kind: InstKind, id: InstId) -> (inst: Inst)
        ensures
            inst@ == (InstView { kind: kind@, id, uses: Set::empty() }),
    {
        Inst { kind, id, use_: IdSet::new() }
    }

    /// What the instruction does.
    pub fn kind(&self) -> (r: &InstKind)
        ensures
            r@ == self@.kind,
    {
        &self.kind
    }

    /// The instruction's own identifier.
    pub fn id(&self) -> (r: InstId)
        ensures
            r == self@.id,
    {
        self.id
    }

    /// The instructions that read the value of this one.
    pub fn use_(&self) -> (r: &IdSet<InstId>)
        ensures
            r@ == self@.uses,
    {
        &self.use_
    }

    /// Replaces what the instruction does; its identifier and users stay.
    pub fn set_kind(&mut self, kind: InstKind)
        ensures
            final(self)@ == (InstView { kind: kind@, ..old(self)@ }),
    {
        self.kind = kind;
    }

    // ----- use -----

    /// Forgets every user of this instruction's value.
    pub fn clear_use(&mut self)
        ensures
            final(self)@ == (InstView { uses: Set::empty(), ..old(self)@ }),
    {
        self.use_.clear();
    }

    /// Records `inst_id` as a user of this instruction's value.
    pub fn append_use(&mut self, inst_id: InstId)
        ensures
            final(self)@ == (InstView { uses: old(self)@.uses.insert(inst_id), ..old(self)@ }),
    {
        self.use_.insert(inst_id);
    }

    /// Forgets `inst_id` as a user of this instruction's value.
    pub fn remove_use(&mut self, inst_id: InstId)
        ensures
            final(self)@ == (InstView { uses: old(self)@.uses.remove(inst_id), ..old(self)@ }),
    {
        self.use_.remove(inst_id);
    }
}

impl InstKind {
    /// The values that the instruction reads, in the order in which it names
    /// them.
    pub fn operands(&self) -> (r: Vec<InstId>)
        ensures
            r@ == self@.operands(),
    {
        let mut r: Vec<InstId> = Vec::new();
        match self {
            InstKind::Eq(a, b)
            | InstKind::Ne(a, b)
            | InstKind::Lt(a, b)
            | InstKind::Le(a, b)
            | InstKind::Add(a, b)
            | InstKind::Sub(a, b)
            | InstKind::Mul(a, b)
            | InstKind::Div(a, b) => {
                r.push(*a);
                r.push(*b);
                assert(r@ =~= seq![*a, *b]);
            },
            InstKind::Call(_, args) => {
                let mut i: usize = 0;
                while i < args.len()
                    invariant
                        i <= args@.len(),
                        r@ == args@.subrange(0, i as int),
                    decreases args@.len() - i,
                {
                    r.push(args[i]);
                    assert(r@ =~= args@.subrange(0, i + 1));
                    i += 1;
                }
                assert(r@ =~= args@);
            },
            InstKind::Br(v, _, _) | InstKind::Store(_, v) | InstKind::Ret(v) => {
                r.push(*v);
                assert(r@ =~= seq![*v]);
            },
            InstKind::Load(_) | InstKind::Const(_) | InstKind::Jmp(_) => {
                assert(r@ =~= seq![]);
            },
        }
        r
    }

    /// The kind with every operand `old` replaced by `new`.
    pub fn replaced(&self, old: InstId, new: InstId) -> (r: InstKind)
        ensures
            r@ == self@.replace_operand(old, new),
    {
        match self {
            InstKind::Eq(a, b) => InstKind::Eq(swap_id(*a, old, new), swap_id(*b, old, new)),
            InstKind::Ne(a, b) => InstKind::Ne(swap_id(*a, old, new), swap_id(*b, old, new)),
            InstKind::Lt(a, b) => InstKind::Lt(swap_id(*a, old, new), swap_id(*b, old, new)),
            InstKind::Le(a, b) => InstKind::Le(swap_id(*a, old, new), swap_id(*b, old, new)),
            InstKind::Add(a, b) => InstKind::Add(swap_id(*a, old, new), swap_id(*b, old, new)),
            InstKind::Sub(a, b) => InstKind::Sub(swap_id(*a, old, new), swap_id(*b, old, new)),
            InstKind::Mul(a, b) => InstKind::Mul(swap_id(*a, old, new), swap_id(*b, old, new)),
            InstKind::Div(a, b) => InstKind::Div(swap_id(*a, old, new), swap_id(*b, old, new)),
            InstKind::Load(m) => InstKind::Load(*m),
            InstKind::Call(f, args) => {
                let mut r: Vec<InstId> = Vec::new();
                let mut i: usize = 0;
                while i < args.len()
                    invariant
                        i <= args@.len(),
                        r@ == args@.subrange(0, i as int).map_values(
                            |x: InstId| swapped(x, old, new),
                        ),
                    decreases args@.len() - i,
                {
                    r.push(swap_id(args[i], old, new));
                    assert(r@ =~= args@.subrange(0, i + 1).map_values(
                        |x: InstId| swapped(x, old, new),
                    ));
                    i += 1;
                }
                assert(args@.subrange(0, i as int) =~= args@);
                InstKind::Call(*f, r)
            },
            InstKind::Const(n) => InstKind::Const(*n),
            InstKind::Br(c, b1, b2) => InstKind::Br(swap_id(*c, old, new), *b1, *b2),
            InstKind::Jmp(b) => InstKind::Jmp(*b),
            InstKind::Store(m, v) => InstKind::Store(*m, swap_id(*v, old, new)),
            InstKind::Ret(v) => InstKind::Ret(swap_id(*v, old, new)),
        }
    }

    /// Whether the instruction may pass control to block `t`.
    pub fn branches_to(&self, t: BlockId) -> (r: bool)
        ensures
            r == self@.targets().contains(t),
    {
        match self {
            InstKind::Br(_, b1, b2) => {
                proof {
                    let ts = self@.targets();
                    assert(ts[0] == *b1 && ts[1] == *b2);
                }
                *b1 == t || *b2 == t
            },
            InstKind::Jmp(b) => {
                proof {
                    let ts = self@.targets();
                    assert(ts[0] == *b);
                }
                *b == t
            },
            _ => false,
        }
    }

    /// The blocks that the instruction may pass control to.
    pub fn targets(&self) -> (r: Vec<BlockId>)
        ensures
            r@ == self@.targets(),
    {
        let mut r: Vec<BlockId> = Vec::new();
        match self {
            InstKind::Br(_, b1, b2) => {
                r.push(*b1);
                r.push(*b2);
                assert(r@ =~= seq![*b1, *b2]);
            },
            InstKind::Jmp(b) => {
                r.push(*b);
                assert(r@ =~= seq![*b]);
            },
            _ => {
                assert(r@ =~= seq![]);
            },
        }
        r
    }
}

// ----- inst predicates -----

/// Whether the instruction has an effect, so that it must stay even where
/// nothing uses it.
pub fn has_side_effect(inst: &Inst) -> (r: bool)
    ensures
        r == inst@.kind.has_side_effect(),
{
    matches!(inst.kind(), InstKind::Br(..) | InstKind::Jmp(..) | InstKind::Store(..) | InstKind::Ret(..))
}

/// What a pass has found out so far about which instructions are dead.
pub struct Deadness {
    known: Vec<(InstId, bool)>,
}

impl Deadness {
    /// What is known: for each instruction that was judged, whether it is
    /// dead.
    pub closed spec fn view(&self) -> Map<InstId, bool> {
        Self::as_map(self.known@)
    }

    /// The map that a list of judgements stands for; a later judgement of
    /// an instruction overrides an earlier one.
    spec fn as_map(known: Seq<(InstId, bool)>) -> Map<InstId, bool>
        decreases known.len(),
    {
        if known.len() == 0 {
            Map::empty()
        } else {
            Self::as_map(known.drop_last()).insert(known.last().0, known.last().1)
        }
    }

    /// Nothing is known.
    pub fn new() -> (d: Deadness)
        ensures
            d@ == Map::<InstId, bool>::empty(),
    {
        Deadness { known: Vec::new() }
    }

    /// What is known of `id`.
    pub fn get(&self, id: InstId) -> (r: Option<bool>)
        ensures
            r == if self@.contains_key(id) {
                Some(self@[id])
            } else {
                None
            },
    {
        let mut i: usize = self.known.len();
        assert(self.known@.subrange(0, i as int) =~= self.known@);
        while i > 0
            invariant
                i <= self.known@.len(),
                Self::as_map(self.known@).contains_key(id) == Self::as_map(
                    self.known@.subrange(0, i as int),
                ).contains_key(id),
                Self::as_map(self.known@).contains_key(id) ==> Self::as_map(self.known@)[id]
                    == Self::as_map(self.known@.subrange(0, i as int))[id],
            decreases i,
        {
            let ghost prefix = self.known@.subrange(0, i as int);
            assert(prefix.drop_last() =~= self.known@.subrange(0, i - 1));
            assert(prefix.last() == self.known@[i - 1]);
            i -= 1;
            if self.known[i].0 == id {
                return Some(self.known[i].1);
            }
        }
        None
    }

    /// Records that `id` is dead, or that it is not.
    pub fn insert(&mut self, id: InstId, dead: bool)
        ensures
            final(self)@ == old(self)@.insert(id, dead),
    {
        let ghost before = self.known@;
        self.known.push((id, dead));
        assert(self.known@.drop_last() =~= before);
    }
}

/// Whether an instruction is dead, given what is known of others: the
/// judgement already made of it, if there is one; else that it has no side
/// effect and every instruction that uses its value is known to be dead.
pub open spec fn dead_given(inst: InstView, known: Map<InstId, bool>) -> bool {
    if known.contains_key(inst.id) {
        known[inst.id]
    } else {
        !inst.kind.has_side_effect() && forall|u: InstId|
            #[trigger] inst.uses.contains(u) ==> known.contains_key(u) && known[u]
    }
}

/// Judges whether `inst` is dead, and records the judgement.
pub fn is_dead(inst: &Inst, deadness: &mut Deadness) -> (dead: bool)
    ensures
        dead == dead_given(inst@, old(deadness)@),
        final(deadness)@ == old(deadness)@.insert(inst@.id, dead),
{
    match deadness.get(inst.id()) {
        Some(dead) => {
            assert(deadness@.insert(inst@.id, dead) =~= deadness@);
            dead
        },
        None => {
            if has_side_effect(inst) {
                deadness.insert(inst.id(), false);
                false
            } else {
                let users = inst.use_().as_slice();
                let mut dead = true;
                let mut i: usize = 0;
                while i < users.len()
                    invariant
                        i <= users@.len(),
                        users@.to_set() == inst@.uses,
                        *deadness == *old(deadness),
                        dead == forall|j: int|
                            0 <= j < i ==> deadness@.contains_key(#[trigger] users@[j])
                                && deadness@[users@[j]],
                    decreases users@.len() - i,
                {
                    match deadness.get(users[i]) {
                        Some(true) => {},
                        _ => {
                            dead = false;
                        },
                    }
                    i += 1;
                }
                proof {
                    let known = deadness@;
                    assert(known == old(deadness)@);
                    assert(!known.contains_key(inst@.id));
                    if dead {
                        assert forall|u: InstId| inst@.uses.contains(u) implies known.contains_key(
                            u,
                        ) && known[u] by {
                            assert(users@.to_set().contains(u));
                            assert(users@.contains(u));
                            let j = choose|j: int| 0 <= j < users@.len() && users@[j] == u;
                            assert(known.contains_key(users@[j]) && known[users@[j]]);
                        }
                        assert(dead_given(inst@, known));
                    } else {
                        let j = choose|j: int|
                            0 <= j < users@.len() && !(known.contains_key(#[trigger] users@[j])
                                && known[users@[j]]);
                        assert(users@.contains(users@[j]));
                        assert(users@.to_set().contains(users@[j]));
                        assert(inst@.uses.contains(users@[j]));
                        assert(!dead_given(inst@, known));
                    }
                }
                deadness.insert(inst.id(), dead);
                dead
            }
        },
    }
}

} // verus!
