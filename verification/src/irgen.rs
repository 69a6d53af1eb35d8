//! Lowering of the syntax tree to the intermediate representation.
//!
//! The representation computes on scalars alone: a variable is a stack
//! slot for an `int` or a `char`, and every value is one of the two. The
//! types are checked where values meet: an assignment and an initialiser
//! against the variable, an argument against the parameter, a returned
//! value against the function's return type, the arms of a conditional
//! expression against each other; arithmetic and comparisons take `int`
//! operands. A program that needs anything else (a pointer, a struct
//! member, a string, a cast from `int` to `char`, a global) is refused
//! with an error. `check_program` states, without building anything, which
//! programs are lowered and which error each of the others gets.

use crate::common::{lookup_all, ErrorKind, Expected, Scope};
use crate::ir::arena::{BlockId, FunctionId, InstId, MemoryId};
use crate::ir::builder::Builder;
use crate::ir::function::{Function, FunctionView};
use crate::ir::inst::{InstKindView, InstView};
use crate::ir::module::{Module, ModuleView};
use crate::ir::visitor::{Cursor, InsertPoint};
use crate::parse::{names_view, Stmt, TopLevel, AST};
use crate::ty::{same_type, same_types, Type};
use vstd::prelude::*;

verus! {

// ----- what lowering accepts -----

/// How a statement leaves the block that it was lowered into.
#[derive(Clone, Copy, Debug, PartialEq, Eq, Structural)]
pub enum Flow {
    /// The block is closed: control does not reach what follows.
    Terminator,
    /// The block is open.
    NoTerminator,
    /// The block is open, and the statement was an expression.
    Expr,
}

/// What lowering knows of a function: its name and type, and whether it has
/// a body.
pub struct Signature {
    pub name: Seq<char>,
    pub ret_ty: Type,
    pub param_tys: Seq<Type>,
    pub defined: bool,
}

/// The types of the values that the representation computes on: a value is
/// an `int` or a `char`. Any other type is written `Other`.
#[derive(Clone, Copy, Debug, PartialEq, Eq, Structural)]
pub enum Scalar {
    Int,
    Char,
    Other,
}

/// The scalar type that the type `ty` is.
pub open spec fn scalar_of(ty: Type) -> Scalar {
    match ty {
        Type::Int => Scalar::Int,
        Type::Char => Scalar::Char,
        _ => Scalar::Other,
    }
}

impl Scalar {
    /// The scalar type that the type `ty` is.
    pub fn of(ty: &Type) -> (r: Scalar)
        ensures
            r == scalar_of(*ty),
    {
        match ty {
            Type::Int => Scalar::Int,
            Type::Char => Scalar::Char,
            _ => Scalar::Other,
        }
    }
}

/// What lowering knows at a point of a function body.
pub struct Env {
    /// The variables of each open scope, innermost last.
    pub scopes: Seq<Set<Seq<char>>>,
    /// The declared types of the variables of each open scope, innermost
    /// last.
    pub types: Seq<Map<Seq<char>, Scalar>>,
    /// The struct tags of each open scope, innermost last.
    pub tags: Seq<Set<Seq<char>>>,
    /// For each enclosing loop, innermost last, whether a `break` has been
    /// lowered for it.
    pub loops: Seq<bool>,
}

/// Whether some scope defines `name`.
pub open spec fn visible(scopes: Seq<Set<Seq<char>>>, name: Seq<char>) -> bool {
    exists|i: int| 0 <= i < scopes.len() && #[trigger] scopes[i].contains(name)
}

/// The scopes with `name` added to the innermost.
pub open spec fn declare(scopes: Seq<Set<Seq<char>>>, name: Seq<char>) -> Seq<Set<Seq<char>>> {
    scopes.update(scopes.len() - 1, scopes.last().insert(name))
}

/// The scopes with `name` given the type `ty` in the innermost.
pub open spec fn declare_type(types: Seq<Map<Seq<char>, Scalar>>, name: Seq<char>, ty: Scalar) -> Seq<
    Map<Seq<char>, Scalar>,
> {
    types.update(types.len() - 1, types.last().insert(name, ty))
}

/// The first function called `name`, if there is one.
pub open spec fn find_signature(sigs: Seq<Signature>, name: Seq<char>) -> Option<int> {
    if exists|i: int| 0 <= i < sigs.len() && #[trigger] sigs[i].name == name {
        Some(first_named(sigs, name, 0))
    } else {
        None
    }
}

/// The first position from `from` on of a function called `name`.
pub open spec fn first_named(sigs: Seq<Signature>, name: Seq<char>, from: int) -> int
    decreases sigs.len() - from,
{
    if 0 <= from < sigs.len() && sigs[from].name != name {
        first_named(sigs, name, from + 1)
    } else {
        from
    }
}

/// The type of the value of the expression `e`, where the variables have
/// the types `types` and the functions the signatures `sigs`: a variable
/// has its declared type, an assignment the type of what it assigns to, a
/// call the return type of the function, a cast the type that it names, a
/// ternary the type of its first arm. Anything else is an `int`: a number,
/// a comparison, arithmetic, and the value of a statement expression.
pub open spec fn type_of(e: AST, types: Seq<Map<Seq<char>, Scalar>>, sigs: Seq<Signature>) -> Scalar
    decreases e,
{
    match e {
        AST::Ident(name) => match lookup_all(types, name@) {
            Some(ty) => ty,
            None => Scalar::Int,
        },
        AST::Assign(lhs, _) => type_of(*lhs, types, sigs),
        AST::Call(name, _) => match find_signature(sigs, name@) {
            Some(i) => scalar_of(sigs[i].ret_ty),
            None => Scalar::Int,
        },
        AST::Cast(ty, _) => scalar_of(ty),
        AST::Ternary(_, a, _) => type_of(*a, types, sigs),
        _ => Scalar::Int,
    }
}

/// Whether the arguments `args` have, one by one, the scalar types of the
/// parameters `tys`.
pub open spec fn args_agree(
    args: Seq<AST>,
    tys: Seq<Type>,
    types: Seq<Map<Seq<char>, Scalar>>,
    sigs: Seq<Signature>,
) -> bool {
    &&& args.len() == tys.len()
    &&& forall|i: int|
        0 <= i < args.len() ==> scalar_of(#[trigger] tys[i]) != Scalar::Other && type_of(
            args[i],
            types,
            sigs,
        ) == scalar_of(tys[i])
}

/// Whether a value of type `from` can be cast to the type `to`: to `int`
/// from either type, to `char` from `char` alone. The representation has no
/// instruction that cuts a value down.
pub open spec fn castable(from: Scalar, to: Scalar) -> bool {
    to == Scalar::Int || (to == Scalar::Char && from == Scalar::Char)
}

/// Whether the expression `e` is lowered in the environment `env`, and the
/// error it gets where it is not. An expression leaves the scopes as they
/// were; a statement expression may lower a `break`.
pub open spec fn check_expr(e: AST, env: Env, sigs: Seq<Signature>, ret: Scalar) -> Result<
    Env,
    ErrorKind,
>
    decreases e, 1nat, 0nat,
{
    match e {
        AST::Num(_) => Ok(env),
        AST::Eq(a, b)
        | AST::Ne(a, b)
        | AST::Lt(a, b)
        | AST::Le(a, b)
        | AST::Add(a, b)
        | AST::Sub(a, b)
        | AST::Mul(a, b)
        | AST::Div(a, b) => match check_expr(*a, env, sigs, ret) {
            Ok(env1) => match check_expr(*b, env1, sigs, ret) {
                Ok(env2) => if type_of(*a, env.types, sigs) == Scalar::Int && type_of(
                    *b,
                    env.types,
                    sigs,
                ) == Scalar::Int {
                    Ok(env2)
                } else {
                    Err(ErrorKind::ExpressionUnsupported)
                },
                Err(k) => Err(k),
            },
            Err(k) => Err(k),
        },
        AST::Ident(_) | AST::Assign(..) => check_addr(e, env, sigs, ret),
        AST::Call(name, args) => match find_signature(sigs, name@) {
            Some(i) => match check_args(args@, 0, env, sigs, ret) {
                Ok(env1) => if !args_agree(args@, sigs[i].param_tys, env.types, sigs) {
                    Err(ErrorKind::ArgumentMismatch)
                } else if scalar_of(sigs[i].ret_ty) == Scalar::Other {
                    Err(ErrorKind::ExpressionUnsupported)
                } else {
                    Ok(env1)
                },
                Err(k) => Err(k),
            },
            None => Err(ErrorKind::FunctionMissing),
        },
        AST::Ternary(c, a, b) => match check_expr(*c, env, sigs, ret) {
            Ok(env1) => match check_expr(*a, env1, sigs, ret) {
                Ok(env2) => match check_expr(*b, env2, sigs, ret) {
                    Ok(env3) => if type_of(*a, env.types, sigs) == type_of(*b, env.types, sigs) {
                        Ok(env3)
                    } else {
                        Err(ErrorKind::TernaryMismatch)
                    },
                    Err(k) => Err(k),
                },
                Err(k) => Err(k),
            },
            Err(k) => Err(k),
        },
        AST::Cast(ty, a) => if castable(type_of(*a, env.types, sigs), scalar_of(ty)) {
            check_expr(*a, env, sigs, ret)
        } else {
            Err(ErrorKind::CastUnsupported)
        },
        AST::Block(stmts) => match check_block(stmts@, env, sigs, ret) {
            Ok((env1, flow)) => if flow is Expr {
                Ok(env1)
            } else {
                Err(ErrorKind::StatementExpressionValue)
            },
            Err(k) => Err(k),
        },
        AST::Addr(_) | AST::Deref(_) | AST::Dot(..) | AST::Str(_) => Err(
            ErrorKind::ExpressionUnsupported,
        ),
    }
}

/// Whether the expression `e` names a stack slot: a variable, or an
/// assignment, which names the slot that it assigns to.
pub open spec fn check_addr(e: AST, env: Env, sigs: Seq<Signature>, ret: Scalar) -> Result<
    Env,
    ErrorKind,
>
    decreases e, 0nat, 0nat,
{
    match e {
        AST::Assign(lhs, rhs) => match check_expr(*rhs, env, sigs, ret) {
            Ok(env1) => match check_addr(*lhs, env1, sigs, ret) {
                Ok(env2) => if type_of(*lhs, env.types, sigs) == type_of(*rhs, env.types, sigs) {
                    Ok(env2)
                } else {
                    Err(ErrorKind::AssignmentMismatch)
                },
                Err(k) => Err(k),
            },
            Err(k) => Err(k),
        },
        AST::Ident(name) => if visible(env.scopes, name@) {
            Ok(env)
        } else {
            Err(ErrorKind::VariableUndeclared)
        },
        AST::Deref(_) | AST::Dot(..) => Err(ErrorKind::ExpressionUnsupported),
        _ => Err(ErrorKind::RvalueAddress),
    }
}

/// Whether the arguments `args`, from position `i` on, are lowered.
pub open spec fn check_args(
    args: Seq<AST>,
    i: nat,
    env: Env,
    sigs: Seq<Signature>,
    ret: Scalar,
) -> Result<Env, ErrorKind>
    decreases args, args.len() - i, 0nat,
{
    if i >= args.len() {
        Ok(env)
    } else {
        match check_expr(args[i as int], env, sigs, ret) {
            Ok(env1) => check_args(args, i + 1, env1, sigs, ret),
            Err(k) => Err(k),
        }
    }
}

/// Whether the statements `stmts` are lowered as a block with scopes of its
/// own, and how the block ends.
pub open spec fn check_block(stmts: Seq<Stmt>, env: Env, sigs: Seq<Signature>, ret: Scalar) -> Result<
    (Env, Flow),
    ErrorKind,
>
    decreases stmts, stmts.len() + 1, 0nat,
{
    let inner = Env {
        scopes: env.scopes.push(Set::empty()),
        types: env.types.push(Map::empty()),
        tags: env.tags.push(Set::empty()),
        loops: env.loops,
    };
    match check_stmts(stmts, 0, inner, Flow::NoTerminator, sigs, ret) {
        Ok((env1, flow)) => Ok(
            (
                Env {
                    scopes: env1.scopes.drop_last(),
                    types: env1.types.drop_last(),
                    tags: env1.tags.drop_last(),
                    loops: env1.loops,
                },
                flow,
            ),
        ),
        Err(k) => Err(k),
    }
}

/// Whether the statements `stmts`, from position `i` on, are lowered one
/// after the other up to the first that closes the block, and how the last
/// one lowered ends. `flow` is how the statement before position `i` ended.
pub open spec fn check_stmts(
    stmts: Seq<Stmt>,
    i: nat,
    env: Env,
    flow: Flow,
    sigs: Seq<Signature>,
    ret: Scalar,
) -> Result<(Env, Flow), ErrorKind>
    decreases stmts, stmts.len() - i, 0nat,
{
    if i >= stmts.len() || flow is Terminator {
        Ok((env, flow))
    } else {
        match check_stmt(stmts[i as int], env, sigs, ret) {
            Ok((env1, flow1)) => check_stmts(stmts, i + 1, env1, flow1, sigs, ret),
            Err(k) => Err(k),
        }
    }
}

/// Whether the variable definitions `defs`, from position `i` on, are
/// lowered.
pub open spec fn check_var_defs(
    defs: Seq<(Type, String, Option<AST>)>,
    i: nat,
    env: Env,
    sigs: Seq<Signature>,
    ret: Scalar,
) -> Result<Env, ErrorKind>
    decreases defs, defs.len() - i, 0nat,
{
    if i >= defs.len() {
        Ok(env)
    } else {
        let (ty, name, init) = defs[i as int];
        if env.scopes.len() > 0 && env.scopes.last().contains(name@) {
            Err(ErrorKind::VariableExists)
        } else if scalar_of(ty) == Scalar::Other {
            Err(ErrorKind::TypeUnsupported)
        } else {
            let env1 = Env {
                scopes: declare(env.scopes, name@),
                types: declare_type(env.types, name@, scalar_of(ty)),
                ..env
            };
            match init {
                Some(e) => match check_expr(e, env1, sigs, ret) {
                    Ok(env2) => if type_of(e, env1.types, sigs) == scalar_of(ty) {
                        check_var_defs(defs, i + 1, env2, sigs, ret)
                    } else {
                        Err(ErrorKind::AssignmentMismatch)
                    },
                    Err(k) => Err(k),
                },
                None => check_var_defs(defs, i + 1, env1, sigs, ret),
            }
        }
    }
}

/// Whether the struct type `ty` can be defined or referred to where the
/// tags `tags` are known, and the tags known afterwards. A definition with a
/// tag installs it in the innermost scope; a reference needs its tag to be
/// known. A type that is no struct defines nothing.
pub open spec fn check_struct(ty: Type, tags: Seq<Set<Seq<char>>>) -> Result<
    Seq<Set<Seq<char>>>,
    ErrorKind,
> {
    match ty {
        Type::Struct(Some(name), Some(_)) => if visible(tags, name@) {
            Err(ErrorKind::StructExists)
        } else {
            Ok(declare(tags, name@))
        },
        Type::Struct(None, Some(_)) => Ok(tags),
        Type::Struct(Some(name), None) => if visible(tags, name@) {
            Ok(tags)
        } else {
            Err(ErrorKind::StructMissing)
        },
        Type::Struct(None, None) => Err(ErrorKind::StructUnnamed),
        _ => Ok(tags),
    }
}

/// Whether the statement `s` is lowered in the environment `env`, the
/// environment that it leaves, and how it ends; or the error that it gets.
pub open spec fn check_stmt(s: Stmt, env: Env, sigs: Seq<Signature>, ret: Scalar) -> Result<
    (Env, Flow),
    ErrorKind,
>
    decreases s, 1nat, 0nat,
{
    match s {
        Stmt::VarDef(defs) => match check_var_defs(defs@, 0, env, sigs, ret) {
            Ok(env1) => Ok((env1, Flow::NoTerminator)),
            Err(k) => Err(k),
        },
        Stmt::StructDef(ty) => match check_struct(ty, env.tags) {
            Ok(tags) => Ok((Env { tags, ..env }, Flow::NoTerminator)),
            Err(k) => Err(k),
        },
        Stmt::IfElse(cond, then, else_) => match check_expr(cond, env, sigs, ret) {
            Ok(env1) => match check_stmt(*then, env1, sigs, ret) {
                Ok((env2, flow1)) => match else_ {
                    Some(stmt) => match check_stmt(*stmt, env2, sigs, ret) {
                        Ok((env3, flow2)) => Ok(
                            (
                                env3,
                                if flow1 is Terminator && flow2 is Terminator {
                                    Flow::Terminator
                                } else {
                                    Flow::NoTerminator
                                },
                            ),
                        ),
                        Err(k) => Err(k),
                    },
                    None => Ok((env2, Flow::NoTerminator)),
                },
                Err(k) => Err(k),
            },
            Err(k) => Err(k),
        },
        Stmt::For(_, cond, _, _) => {
            let env0 = Env { loops: env.loops.push(false), ..env };
            match check_loop(s, env0, sigs, ret) {
                Ok(env4) => Ok(
                    (
                        Env { loops: env4.loops.drop_last(), ..env4 },
                        if cond is None && !env4.loops.last() {
                            Flow::Terminator
                        } else {
                            Flow::NoTerminator
                        },
                    ),
                ),
                Err(k) => Err(k),
            }
        },
        Stmt::Break => if env.loops.len() > 0 {
            Ok((Env { loops: env.loops.update(env.loops.len() - 1, true), ..env }, Flow::Terminator))
        } else {
            Err(ErrorKind::BreakOutsideLoop)
        },
        Stmt::Cont => if env.loops.len() > 0 {
            Ok((env, Flow::Terminator))
        } else {
            Err(ErrorKind::ContinueOutsideLoop)
        },
        Stmt::Return(e) => match check_expr(e, env, sigs, ret) {
            Ok(env1) => if type_of(e, env.types, sigs) == ret {
                Ok((env1, Flow::Terminator))
            } else {
                Err(ErrorKind::ReturnTypeDiffers)
            },
            Err(k) => Err(k),
        },
        Stmt::Block(stmts) => check_block(stmts@, env, sigs, ret),
        Stmt::Expr(e) => match check_expr(e, env, sigs, ret) {
            Ok(env1) => Ok((env1, Flow::Expr)),
            Err(k) => Err(k),
        },
    }
}

/// An `if` closes the block exactly where it has an `else` and both of its
/// arms close theirs; then nothing follows it. In every other case what
/// follows is lowered after it.
pub proof fn law_if_else_flow(s: Stmt, env: Env, sigs: Seq<Signature>, ret: Scalar)
    requires
        s is IfElse,
        check_stmt(s, env, sigs, ret) is Ok,
    ensures
        ({
            let env1 = check_expr(s->IfElse_0, env, sigs, ret)->Ok_0;
            let (env2, flow1) = check_stmt(*s->IfElse_1, env1, sigs, ret)->Ok_0;
            check_stmt(s, env, sigs, ret)->Ok_0.1 is Terminator <==> s->IfElse_2 is Some
                && flow1 is Terminator && check_stmt(
                *s->IfElse_2->Some_0,
                env2,
                sigs,
                ret,
            )->Ok_0.1 is Terminator
        }),
{
}

/// A loop closes the block exactly where it has no condition and no `break`
/// was lowered for it: nothing then branches to the block past the loop,
/// and nothing follows the loop.
pub proof fn law_loop_flow(s: Stmt, env: Env, sigs: Seq<Signature>, ret: Scalar)
    requires
        s is For,
        check_stmt(s, env, sigs, ret) is Ok,
    ensures
        ({
            let env0 = Env { loops: env.loops.push(false), ..env };
            let env4 = check_loop(s, env0, sigs, ret)->Ok_0;
            check_stmt(s, env, sigs, ret)->Ok_0.1 is Terminator <==> s->For_1 is None
                && !env4.loops.last()
        }),
{
}

/// Whether the parts of the loop `s` are lowered, in the order in which they
/// are: the initialiser, the condition, the body, the increment.
pub open spec fn check_loop(s: Stmt, env: Env, sigs: Seq<Signature>, ret: Scalar) -> Result<
    Env,
    ErrorKind,
>
    decreases s, 0nat, 0nat,
{
    match s {
        Stmt::For(init, cond, inc, body) => match check_opt_expr(init, env, sigs, ret) {
            Ok(env1) => match check_opt_expr(cond, env1, sigs, ret) {
                Ok(env2) => match check_stmt(*body, env2, sigs, ret) {
                    Ok((env3, _)) => check_opt_expr(inc, env3, sigs, ret),
                    Err(k) => Err(k),
                },
                Err(k) => Err(k),
            },
            Err(k) => Err(k),
        },
        _ => Ok(env),
    }
}

/// Whether an expression that may be absent is lowered.
pub open spec fn check_opt_expr(e: Option<AST>, env: Env, sigs: Seq<Signature>, ret: Scalar) -> Result<
    Env,
    ErrorKind,
>
    decreases e, 1nat, 0nat,
{
    match e {
        Some(e) => check_expr(e, env, sigs, ret),
        None => Ok(env),
    }
}

// ----- the shape of a function under construction -----

impl FunctionView {
    /// No instruction of block `b` closes it.
    pub open spec fn unclosed(self, b: BlockId) -> bool {
        forall|i: int|
            0 <= i < self.block(b).insts.len() ==> !self.inst(
                #[trigger] self.block(b).insts[i],
            ).kind.is_terminator()
    }

    /// Block `b` ends in the one instruction that closes it.
    pub open spec fn closed(self, b: BlockId) -> bool {
        &&& self.block(b).insts.len() > 0
        &&& self.inst(self.block(b).insts.last()).kind.is_terminator()
        &&& forall|i: int|
            0 <= i < self.block(b).insts.len() - 1 ==> !self.inst(
                #[trigger] self.block(b).insts[i],
            ).kind.is_terminator()
    }

    /// Every block of the block order ends in the one instruction that
    /// closes it: a branch, a jump or a return.
    pub open spec fn all_closed(self) -> bool {
        forall|i: int| 0 <= i < self.blocks.len() ==> self.closed(#[trigger] self.blocks[i])
    }

    /// How far construction has come: of the blocks of the block order, the
    /// one that is being filled is not closed, those that wait to be filled
    /// are empty, and every other one is closed.
    pub open spec fn shaped(self, open: Option<BlockId>, pending: Set<BlockId>) -> bool {
        forall|i: int|
            0 <= i < self.blocks.len() ==> {
                let b = #[trigger] self.blocks[i];
                if open == Some(b) {
                    self.unclosed(b)
                } else if pending.contains(b) {
                    self.block(b).insts.len() == 0
                } else {
                    self.closed(b)
                }
            }
    }

    /// Whether `g` has everything that `self` has: the same signature and
    /// identifier tags, arenas at least as long, and every block of the
    /// block order still in it.
    pub open spec fn within(self, g: FunctionView) -> bool {
        &&& g.name == self.name
        &&& g.ret_ty == self.ret_ty
        &&& g.param_tys == self.param_tys
        &&& g.block_tag == self.block_tag
        &&& g.inst_tag == self.inst_tag
        &&& g.memory_tag == self.memory_tag
        &&& g.block_items.len() >= self.block_items.len()
        &&& g.inst_items.len() >= self.inst_items.len()
        &&& g.memory_items.len() >= self.memory_items.len()
        &&& forall|b: BlockId| self.blocks.contains(b) ==> #[trigger] g.blocks.contains(b)
    }

    /// An instruction appended to the block that is being filled keeps the
    /// shape: the block stays open unless the instruction closes it.
    pub proof fn lemma_append_shaped(self, b: BlockId, kind: InstKindView, pending: Set<BlockId>)
        requires
            self.wf(),
            self.linked(),
            self.shaped(Some(b), pending),
            self.blocks.contains(b),
            self.has_block(b),
            !pending.contains(b),
            kind.names_within(self),
            self.inst_items.len() < usize::MAX,
        ensures
            ({
                let g = self.built(
                    Cursor { insert_block: Some(b), insert_point: InsertPoint::After },
                    kind,
                );
                &&& self.within(g)
                &&& g.blocks == self.blocks
                &&& g.inst(self.next_inst_id()).kind == kind
                &&& g.has_inst(self.next_inst_id())
                &&& g.shaped(
                    if kind.is_terminator() {
                        None
                    } else {
                        Some(b)
                    },
                    pending,
                )
                &&& g.memory_items == self.memory_items || g.memory_items.len() == self.memory_items.len()
            }),
    {
        let at = self.block(b).insts.len() as int;
        let id = self.next_inst_id();
        let inst = InstView { kind, id, uses: Set::empty() };
        let g = self.built(Cursor { insert_block: Some(b), insert_point: InsertPoint::After }, kind);
        self.lemma_tied_frame(b, at, inst);
        assert(g.block(b).insts =~= self.block(b).insts.push(id));
        let open = if kind.is_terminator() { None } else { Some(b) };
        assert forall|i: int| 0 <= i < g.blocks.len() implies ({
            let c = #[trigger] g.blocks[i];
            if open == Some(c) {
                g.unclosed(c)
            } else if pending.contains(c) {
                g.block(c).insts.len() == 0
            } else {
                g.closed(c)
            }
        }) by {
            let c = self.blocks[i];
            assert(self.has_block(c));
            if c == b {
                assert(self.unclosed(b));
                assert forall|j: int| 0 <= j < at implies !g.inst(
                    #[trigger] g.block(b).insts[j],
                ).kind.is_terminator() by {
                    assert(self.has_inst(self.block(b).insts[j]));
                }
                assert(g.block(b).insts[at] == id);
                assert(g.block(b).insts.last() == id);
                assert(g.block(b).insts.len() == at + 1);
                assert(g.inst(id).kind == kind);
                if kind.is_terminator() {
                    assert(g.closed(b));
                } else {
                    assert forall|j: int| 0 <= j < g.block(b).insts.len() implies !g.inst(
                        #[trigger] g.block(b).insts[j],
                    ).kind.is_terminator() by {
                        if j < at {
                            assert(self.has_inst(self.block(b).insts[j]));
                        }
                    }
                    assert(g.unclosed(b));
                }
            } else {
                assert(g.block(c).insts == self.block(c).insts);
                assert forall|j: int| 0 <= j < g.block(c).insts.len() implies g.inst(
                    #[trigger] g.block(c).insts[j],
                ).kind == self.inst(self.block(c).insts[j]).kind by {
                    assert(self.has_inst(self.block(c).insts[j]));
                }
                assert(open != Some(c));
                if !pending.contains(c) {
                    assert(self.closed(c));
                    assert(g.inst(g.block(c).insts[g.block(c).insts.len() - 1]).kind == self.inst(
                        self.block(c).insts[g.block(c).insts.len() - 1],
                    ).kind);
                    assert(g.closed(c));
                }
            }
        }
    }
}

// ----- lowering one function -----

/// The names that each scope defines.
pub open spec fn names_of<V>(scopes: Seq<Map<Seq<char>, V>>) -> Seq<Set<Seq<char>>> {
    scopes.map_values(|m: Map<Seq<char>, V>| m.dom())
}

/// The member names that each struct tag stands for, by scope.
pub open spec fn members_of(scopes: Seq<Map<Seq<char>, Vec<String>>>) -> Seq<
    Map<Seq<char>, Seq<Seq<char>>>,
> {
    scopes.map_values(
        |m: Map<Seq<char>, Vec<String>>|
            Map::new(|k: Seq<char>| m.contains_key(k), |k: Seq<char>| names_view(m[k]@)),
    )
}

/// What the struct type `ty` makes of the member names `known` where it is
/// accepted: a definition with a tag installs, in the innermost scope, the
/// names of its members under its tag. Anything else installs nothing.
pub open spec fn with_members(ty: Type, known: Seq<Map<Seq<char>, Seq<Seq<char>>>>) -> Seq<
    Map<Seq<char>, Seq<Seq<char>>>,
> {
    match ty {
        Type::Struct(Some(name), Some(body)) => known.update(
            known.len() - 1,
            known.last().insert(name@, names_view(body.1@)),
        ),
        _ => known,
    }
}

/// What lowering knows of the functions of a module.
pub open spec fn signatures(m: ModuleView) -> Seq<Signature> {
    Seq::new(
        m.functions.len(),
        |i: int|
            Signature {
                name: m.functions[i].name,
                ret_ty: m.functions[i].ret_ty,
                param_tys: m.functions[i].param_tys,
                defined: m.functions[i].blocks.len() > 0,
            },
    )
}

/// The state of lowering one function body.
struct GenFun<'a> {
    module: &'a Module,
    ret: Scalar,
    builder: Builder,
    var_scope: Scope<MemoryId>,
    var_types: Scope<Scalar>,
    tag_scope: Scope<Vec<String>>,
    break_label: Vec<BlockId>,
    cont_label: Vec<BlockId>,
    break_used: Vec<bool>,
}

impl<'a> GenFun<'a> {
    spec fn env(&self) -> Env {
        Env {
            scopes: names_of(self.var_scope@),
            types: self.var_types@,
            tags: names_of(self.tag_scope@),
            loops: self.break_used@,
        }
    }

    spec fn fun(&self) -> FunctionView {
        self.builder.fun()
    }

    /// How far lowering has come.
    spec fn state(&self) -> Lowering {
        Lowering {
            f: self.fun(),
            at: self.builder.cursor().insert_block.unwrap(),
            vars: self.var_scope@,
            tags: names_of(self.tag_scope@),
            breaks: self.break_label@,
            conts: self.cont_label@,
            used: self.break_used@,
        }
    }

    spec fn sigs(&self) -> Seq<Signature> {
        signatures(self.module@)
    }

    /// What holds throughout: the function is consistent and linked, every
    /// block that waits to be filled and every loop label is a block of it,
    /// and every variable in scope has a stack slot of it.
    #[verifier::opaque]
    spec fn base_inv(&self, pending: Set<BlockId>) -> bool {
        &&& self.builder.ready()
        &&& forall|p: BlockId| pending.contains(p) ==> self.fun().has_block(p)
        &&& self.break_label@.len() == self.break_used@.len()
        &&& self.cont_label@.len() == self.break_used@.len()
        &&& forall|i: int|
            0 <= i < self.break_label@.len() ==> self.fun().has_block(#[trigger] self.break_label@[i])
        &&& forall|i: int|
            0 <= i < self.cont_label@.len() ==> self.fun().has_block(#[trigger] self.cont_label@[i])
        &&& self.var_scope@.len() > 0
        &&& self.var_types@.len() > 0
        &&& self.tag_scope@.len() > 0
        &&& forall|d: int, name: Seq<char>|
            0 <= d < self.var_scope@.len() && #[trigger] self.var_scope@[d].contains_key(name)
                ==> self.fun().has_memory(self.var_scope@[d][name])
    }

    /// A block is being filled: the cursor stands after its end.
    #[verifier::opaque]
    spec fn open_inv(&self, pending: Set<BlockId>) -> bool {
        &&& self.base_inv(pending)
        &&& self.builder.cursor().insert_block is Some
        &&& self.builder.cursor().insert_point is After
        &&& self.fun().blocks.contains(self.builder.cursor().insert_block.unwrap())
        &&& self.fun().has_block(self.builder.cursor().insert_block.unwrap())
        &&& !pending.contains(self.builder.cursor().insert_block.unwrap())
        &&& self.fun().shaped(self.builder.cursor().insert_block, pending)
    }

    /// No block is being filled.
    #[verifier::opaque]
    spec fn closed_inv(&self, pending: Set<BlockId>) -> bool {
        &&& self.base_inv(pending)
        &&& self.fun().shaped(None, pending)
    }

    /// What a step of lowering leaves alone: the module, the labels, and
    /// everything that the function had.
    spec fn extends(&self, before: &GenFun<'a>) -> bool {
        &&& self.module == before.module
        &&& self.ret == before.ret
        &&& self.break_label@ == before.break_label@
        &&& self.cont_label@ == before.cont_label@
        &&& self.break_used@.len() == before.break_used@.len()
        &&& before.fun().within(self.fun())
    }

    /// Builds an instruction at the end of the block that is being filled.
    fn emit(&mut self, kind: crate::ir::inst::InstKind, Ghost(pending): Ghost<Set<BlockId>>) -> (id:
        InstId)
        requires
            old(self).open_inv(pending),
            kind@.names_within(old(self).fun()),
        ensures
            id == old(self).fun().next_inst_id(),
            final(self).state() == old(self).state().emit(kind@),
            final(self).fun().has_inst(id),
            final(self).balanced(old(self)),
            final(self).extends(old(self)),
            final(self).env() == old(self).env(),
            final(self).var_scope == old(self).var_scope,
            final(self).tag_scope == old(self).tag_scope,
            final(self).break_used == old(self).break_used,
            final(self).builder.cursor() == old(self).builder.cursor(),
            final(self).fun().blocks == old(self).fun().blocks,
            if kind@.is_terminator() {
                final(self).closed_inv(pending)
            } else {
                final(self).open_inv(pending)
            },
    {
        proof {
            reveal(Lowering::emit);
        }
        proof {
            reveal(GenFun::base_inv);
            reveal(GenFun::open_inv);
            reveal(GenFun::closed_inv);
        }
        let ghost f = self.fun();
        let ghost b = self.builder.cursor().insert_block.unwrap();
        let ghost kv = kind@;
        let id = self.builder.build_inst(kind);
        proof {
            let g = self.fun();
            assert(self.builder.cursor().index(f) == f.block(b).insts.len());
            assert(g == f.built(
                Cursor { insert_block: Some(b), insert_point: InsertPoint::After },
                kv,
            ));
            assert(g.inst_items.len() == f.inst_items.len() + 1);
            f.lemma_append_shaped(b, kv, pending);
            assert forall|d: int, name: Seq<char>|
                0 <= d < self.var_scope@.len() && #[trigger] self.var_scope@[d].contains_key(
                    name,
                ) implies g.has_memory(self.var_scope@[d][name]) by {
                assert(f.has_memory(self.var_scope@[d][name]));
            }
        }
        id
    }

    /// Makes an empty block right after `after` in the block order. It waits
    /// to be filled.
    fn new_block_after(&mut self, after: BlockId, Ghost(pending): Ghost<Set<BlockId>>) -> (id:
        BlockId)
        requires
            old(self).open_inv(pending),
            old(self).fun().blocks.contains(after),
        ensures
            id == old(self).fun().next_block_id(),
            final(self).state() == old(self).state().block_after(after),
            !old(self).fun().has_block(id),
            !pending.contains(id),
            final(self).fun().blocks.contains(id),
            final(self).fun().has_block(id),
            final(self).balanced(old(self)),
            final(self).extends(old(self)),
            final(self).env() == old(self).env(),
            final(self).var_scope == old(self).var_scope,
            final(self).tag_scope == old(self).tag_scope,
            final(self).break_used == old(self).break_used,
            final(self).builder.cursor() == old(self).builder.cursor(),
            final(self).open_inv(pending.insert(id)),
    {
        proof {
            reveal(Lowering::block_after);
        }
        proof {
            reveal(GenFun::base_inv);
            reveal(GenFun::open_inv);
            reveal(GenFun::closed_inv);
        }
        let ghost f = self.fun();
        let id = self.builder.insert_basic_block_after(after);
        proof {
            let g = self.fun();
            let at = f.blocks.index_of(after) + 1;
            assert(g == f.with_block_at(at));
            assert(f.blocks[at - 1] == after);
            assert(g.blocks[at] == id);
            assert forall|b: BlockId| f.blocks.contains(b) implies #[trigger] g.blocks.contains(
                b,
            ) by {
                let j = choose|j: int| 0 <= j < f.blocks.len() && f.blocks[j] == b;
                if j < at {
                    assert(g.blocks[j] == b);
                } else {
                    assert(g.blocks[j + 1] == b);
                }
            }
            assert forall|b: BlockId| f.has_block(b) implies g.block(b) == f.block(b) by {}
            let open = self.builder.cursor().insert_block;
            let more = pending.insert(id);
            assert forall|i: int| 0 <= i < g.blocks.len() implies ({
                let c = #[trigger] g.blocks[i];
                if open == Some(c) {
                    g.unclosed(c)
                } else if more.contains(c) {
                    g.block(c).insts.len() == 0
                } else {
                    g.closed(c)
                }
            }) by {
                let c = g.blocks[i];
                if i == at {
                    assert(c == id);
                } else {
                    let j = if i < at { i } else { i - 1 };
                    assert(c == f.blocks[j]);
                    assert(f.has_block(f.blocks[j]));
                    assert(c != id);
                }
            }
            assert forall|d: int, name: Seq<char>|
                0 <= d < self.var_scope@.len() && #[trigger] self.var_scope@[d].contains_key(
                    name,
                ) implies g.has_memory(self.var_scope@[d][name]) by {
                assert(f.has_memory(self.var_scope@[d][name]));
            }
        }
        id
    }

    /// Starts to fill a block that waited for it.
    fn enter(&mut self, block: BlockId, Ghost(pending): Ghost<Set<BlockId>>)
        requires
            old(self).closed_inv(pending),
            pending.contains(block),
            old(self).fun().blocks.contains(block),
        ensures
            final(self).state() == old(self).state().enter(block),
            final(self).fun() == old(self).fun(),
            final(self).balanced(old(self)),
            final(self).extends(old(self)),
            final(self).env() == old(self).env(),
            final(self).var_scope == old(self).var_scope,
            final(self).tag_scope == old(self).tag_scope,
            final(self).break_used == old(self).break_used,
            final(self).builder.cursor().insert_block == Some(block),
            final(self).open_inv(pending.remove(block)),
    {
        proof {
            reveal(GenFun::base_inv);
            reveal(GenFun::open_inv);
            reveal(GenFun::closed_inv);
        }
        self.builder.position_at_end(block);
        proof {
            let g = self.fun();
            let fewer = pending.remove(block);
            assert forall|i: int| 0 <= i < g.blocks.len() implies ({
                let c = #[trigger] g.blocks[i];
                if Some(block) == Some(c) {
                    g.unclosed(c)
                } else if fewer.contains(c) {
                    g.block(c).insts.len() == 0
                } else {
                    g.closed(c)
                }
            }) by {}
        }
    }

    /// Takes a block that waited to be filled out of the block order.
    fn drop_block(&mut self, block: BlockId, Ghost(pending): Ghost<Set<BlockId>>)
        requires
            old(self).closed_inv(pending),
            pending.contains(block),
            old(self).fun().blocks.contains(block),
        ensures
            final(self).state() == old(self).state().drop_block(block),
            final(self).closed_inv(pending.remove(block)),
            !final(self).fun().blocks.contains(block),
            forall|b: BlockId|
                old(self).fun().blocks.contains(b) && b != block ==> #[trigger] final(self).fun().blocks.contains(b),
            final(self).balanced(old(self)),
            final(self).fun().name == old(self).fun().name,
            final(self).fun().ret_ty == old(self).fun().ret_ty,
            final(self).fun().param_tys == old(self).fun().param_tys,
            final(self).fun().block_tag == old(self).fun().block_tag,
            final(self).fun().inst_tag == old(self).fun().inst_tag,
            final(self).fun().memory_tag == old(self).fun().memory_tag,
            final(self).fun().block_items == old(self).fun().block_items,
            final(self).fun().inst_items == old(self).fun().inst_items,
            final(self).fun().memory_items == old(self).fun().memory_items,
            final(self).module == old(self).module,
            final(self).ret == old(self).ret,
            final(self).break_label == old(self).break_label,
            final(self).cont_label == old(self).cont_label,
            final(self).env() == old(self).env(),
            final(self).var_scope == old(self).var_scope,
            final(self).tag_scope == old(self).tag_scope,
            final(self).break_used == old(self).break_used,
    {
        proof {
            reveal(Lowering::drop_block);
        }
        proof {
            reveal(GenFun::base_inv);
            reveal(GenFun::open_inv);
            reveal(GenFun::closed_inv);
        }
        let ghost f = self.fun();
        self.builder.remove_basic_block(block);
        proof {
            let g = self.fun();
            let at = f.blocks.index_of(block);
            assert(f.blocks[at] == block);
            assert(g == f.without_block_at(at));
            assert forall|b: BlockId|
                f.blocks.contains(b) && b != block implies #[trigger] g.blocks.contains(b) by {
                let j = choose|j: int| 0 <= j < f.blocks.len() && f.blocks[j] == b;
                if j < at {
                    assert(g.blocks[j] == b);
                } else {
                    assert(g.blocks[j - 1] == b);
                }
            }
            assert forall|b: BlockId| g.blocks.contains(b) implies #[trigger] f.blocks.contains(
                b,
            ) by {
                let j = choose|j: int| 0 <= j < g.blocks.len() && g.blocks[j] == b;
                if j < at {
                    assert(f.blocks[j] == b);
                } else {
                    assert(f.blocks[j + 1] == b);
                }
            }
            let fewer = pending.remove(block);
            assert forall|i: int| 0 <= i < g.blocks.len() implies ({
                let c = #[trigger] g.blocks[i];
                if fewer.contains(c) {
                    g.block(c).insts.len() == 0
                } else {
                    g.closed(c)
                }
            }) by {
                let j = if i < at { i } else { i + 1 };
                assert(g.blocks[i] == f.blocks[j]);
                assert(g.blocks.contains(g.blocks[i]));
            }
        }
    }

    /// Makes a stack slot for the variable `name` and binds the name in the
    /// innermost scope.
    fn create_entry_block_alloca(
        &mut self,
        ty: Scalar,
        name: String,
        Ghost(pending): Ghost<Set<BlockId>>,
    ) -> (id: MemoryId)
        requires
            old(self).open_inv(pending),
        ensures
            id == old(self).fun().next_memory_id(),
            final(self).state() == old(self).state().slot().bind(name@, id),
            final(self).fun().has_memory(id),
            final(self).balanced(old(self)),
            final(self).extends(old(self)),
            final(self).env() == (Env {
                scopes: declare(old(self).env().scopes, name@),
                types: declare_type(old(self).env().types, name@, ty),
                ..old(self).env()
            }),
            final(self).tag_scope == old(self).tag_scope,
            final(self).break_used == old(self).break_used,
            final(self).builder.cursor() == old(self).builder.cursor(),
            final(self).fun().blocks == old(self).fun().blocks,
            final(self).open_inv(pending),
    {
        proof {
            reveal(Lowering::slot);
            reveal(Lowering::bind);
        }
        proof {
            reveal(GenFun::base_inv);
            reveal(GenFun::open_inv);
            reveal(GenFun::closed_inv);
        }
        let ghost f = self.fun();
        let ghost key = name@;
        let mem_id = self.builder.build_alloca();
        let _ = self.var_types.insert(name.clone(), ty);
        let _ = self.var_scope.insert(name, mem_id);
        proof {
            let g = self.fun();
            assert(g == f.with_memory());
            assert forall|b: BlockId| f.has_block(b) implies g.block(b) == f.block(b) by {}
            assert forall|x: InstId| f.has_inst(x) implies g.inst(x) == f.inst(x) by {}
            let open = self.builder.cursor().insert_block;
            assert forall|i: int| 0 <= i < g.blocks.len() implies ({
                let c = #[trigger] g.blocks[i];
                if open == Some(c) {
                    g.unclosed(c)
                } else if pending.contains(c) {
                    g.block(c).insts.len() == 0
                } else {
                    g.closed(c)
                }
            }) by {
                assert(f.has_block(f.blocks[i]));
            }
            assert(names_of(self.var_scope@) =~= declare(names_of(old(self).var_scope@), key)) by {
                let a = names_of(self.var_scope@);
                let b = declare(names_of(old(self).var_scope@), key);
                assert(a.len() == b.len());
                assert forall|i: int| 0 <= i < a.len() implies a[i] =~= b[i] by {}
            }
            assert forall|d: int, n: Seq<char>|
                0 <= d < self.var_scope@.len() && #[trigger] self.var_scope@[d].contains_key(
                    n,
                ) implies g.has_memory(self.var_scope@[d][n]) by {
                if d == self.var_scope@.len() - 1 && n == key {
                } else {
                    assert(old(self).var_scope@[d].contains_key(n));
                    assert(f.has_memory(old(self).var_scope@[d][n]));
                }
            }
        }
        mem_id
    }
}

/// What a statement was lowered to.
#[derive(Clone, Copy, Debug)]
pub enum StmtKind {
    /// The block is closed.
    Terminator,
    /// The block is open.
    NoTerminator,
    /// The block is open, and the statement was an expression with this
    /// value.
    Expr(InstId),
}

impl StmtKind {
    pub open spec fn flow(self) -> Flow {
        match self {
            StmtKind::Terminator => Flow::Terminator,
            StmtKind::NoTerminator => Flow::NoTerminator,
            StmtKind::Expr(_) => Flow::Expr,
        }
    }

    pub fn is_terminator(&self) -> (r: bool)
        ensures
            r == (self.flow() is Terminator),
    {
        matches!(self, StmtKind::Terminator)
    }
}

/// A name is visible exactly where looking it up through the scopes finds
/// a value, and the value found is that of some scope.
pub proof fn lemma_lookup_visible<V>(scopes: Seq<Map<Seq<char>, V>>, name: Seq<char>)
    ensures
        visible(names_of(scopes), name) == lookup_all(scopes, name).is_some(),
        lookup_all(scopes, name).is_some() ==> exists|d: int|
            0 <= d < scopes.len() && #[trigger] scopes[d].contains_key(name) && scopes[d][name]
                == lookup_all(scopes, name).unwrap(),
    decreases scopes.len(),
{
    let names = names_of(scopes);
    if scopes.len() == 0 {
    } else if scopes.last().contains_key(name) {
        assert(names[scopes.len() - 1].contains(name));
        assert(scopes[scopes.len() - 1].contains_key(name));
    } else {
        let rest = scopes.drop_last();
        lemma_lookup_visible(rest, name);
        assert(names_of(rest) =~= names.drop_last());
        if visible(names.drop_last(), name) {
            let i = choose|i: int|
                0 <= i < names.drop_last().len() && #[trigger] names.drop_last()[i].contains(name);
            assert(names[i].contains(name));
            let d = choose|d: int|
                0 <= d < rest.len() && #[trigger] rest[d].contains_key(name) && rest[d][name]
                    == lookup_all(rest, name).unwrap();
            assert(scopes[d].contains_key(name));
        }
        if visible(names, name) {
            let i = choose|i: int| 0 <= i < names.len() && #[trigger] names[i].contains(name);
            assert(i != scopes.len() - 1);
            assert(names.drop_last()[i].contains(name));
        }
    }
}

/// The first function called `name` is where a search from the front finds
/// it.
pub proof fn lemma_first_named(sigs: Seq<Signature>, name: Seq<char>, from: int, at: int)
    requires
        0 <= from <= at < sigs.len(),
        sigs[at].name == name,
        forall|j: int| from <= j < at ==> sigs[j].name != name,
    ensures
        first_named(sigs, name, from) == at,
    decreases at - from,
{
    if from < at {
        lemma_first_named(sigs, name, from + 1, at);
    }
}

impl<'a> GenFun<'a> {
    /// The stacks are as deep as they were.
    spec fn balanced(&self, before: &GenFun<'a>) -> bool {
        &&& self.var_scope@.len() == before.var_scope@.len()
        &&& self.var_types@.len() == before.var_types@.len()
        &&& self.tag_scope@.len() == before.tag_scope@.len()
        &&& self.break_label@.len() == before.break_label@.len()
        &&& self.cont_label@.len() == before.cont_label@.len()
        &&& self.break_used@.len() == before.break_used@.len()
    }

    /// What lowering an expression promises: the error that `check_expr`
    /// gives, or a value, a block that is being filled, and the environment
    /// that `check_expr` gives. Whether it fails or not, everything that
    /// was built before is still there.
    spec fn expr_post(
        &self,
        before: &GenFun<'a>,
        pending: Set<BlockId>,
        checked: Result<Env, ErrorKind>,
        lowered: (Lowering, InstId),
        r: Expected<InstId>,
    ) -> bool {
        &&& self.balanced(before)
        &&& self.extends(before)
        &&& match checked {
            Err(k) => r == Err::<InstId, ErrorKind>(k),
            Ok(env1) => r is Ok && self.env() == env1 && self.open_inv(pending)
                && self.fun().has_inst(r.unwrap()) && self.state()
                == lowered.0 && r.unwrap() == lowered.1,
        }
    }

    /// What lowering an address promises.
    spec fn addr_post(
        &self,
        before: &GenFun<'a>,
        pending: Set<BlockId>,
        checked: Result<Env, ErrorKind>,
        lowered: (Lowering, MemoryId),
        r: Expected<MemoryId>,
    ) -> bool {
        &&& self.balanced(before)
        &&& self.extends(before)
        &&& match checked {
            Err(k) => r == Err::<MemoryId, ErrorKind>(k),
            Ok(env1) => r is Ok && self.env() == env1 && self.open_inv(pending)
                && self.fun().has_memory(r.unwrap()) && self.state()
                == lowered.0 && r.unwrap() == lowered.1,
        }
    }

    /// What lowering a statement promises: the error that `check_stmt`
    /// gives, or the flow and the environment that it gives, with a block
    /// being filled unless the statement closed it.
    spec fn stmt_post(
        &self,
        before: &GenFun<'a>,
        pending: Set<BlockId>,
        checked: Result<(Env, Flow), ErrorKind>,
        lowered: (Lowering, StmtKind),
        r: Expected<StmtKind>,
    ) -> bool {
        &&& self.balanced(before)
        &&& self.extends(before)
        &&& match checked {
            Err(k) => r == Err::<StmtKind, ErrorKind>(k),
            Ok((env1, flow)) => r is Ok && r.unwrap().flow() == flow && self.env() == env1
                && self.state() == lowered.0 && r.unwrap() == lowered.1
                && (if flow is Terminator {
                self.closed_inv(pending)
            } else {
                self.open_inv(pending)
            }) && (match r.unwrap() {
                StmtKind::Expr(v) => self.fun().has_inst(v),
                _ => true,
            }),
        }
    }

    /// The block that is being filled.
    fn current_block(&self, Ghost(pending): Ghost<Set<BlockId>>) -> (b: BlockId)
        requires
            self.open_inv(pending),
        ensures
            b == self.state().at,
            Some(b) == self.builder.cursor().insert_block,
            self.fun().blocks.contains(b),
            self.fun().has_block(b),
            !pending.contains(b),
    {
        proof {
            reveal(GenFun::open_inv);
        }
        self.builder.get_insert_block().unwrap()
    }

    /// The block that `break` jumps to and the one that `continue` jumps
    /// to, where a loop is open.
    fn loop_labels(&self, Ghost(pending): Ghost<Set<BlockId>>) -> (r: Option<(BlockId, BlockId)>)
        requires
            self.open_inv(pending),
        ensures
            match r {
                Some((b, c)) => self.break_used@.len() > 0 && self.fun().has_block(b)
                    && self.fun().has_block(c) && b == self.break_label@.last() && c
                    == self.cont_label@.last(),
                None => self.break_used@.len() == 0,
            },
    {
        proof {
            reveal(GenFun::open_inv);
            reveal(GenFun::base_inv);
        }
        let n = self.break_label.len();
        if n == 0 {
            None
        } else {
            Some((self.break_label[n - 1], self.cont_label[n - 1]))
        }
    }

    /// Records that a `break` was lowered for the innermost loop.
    fn mark_break(&mut self, Ghost(pending): Ghost<Set<BlockId>>)
        requires
            old(self).open_inv(pending),
            old(self).break_used@.len() > 0,
        ensures
            final(self).state() == (Lowering {
                used: old(self).state().used.update(old(self).state().used.len() - 1, true),
                ..old(self).state()
            }),
            final(self).open_inv(pending),
            final(self).env() == (Env {
                loops: old(self).env().loops.update(old(self).env().loops.len() - 1, true),
                ..old(self).env()
            }),
            final(self).extends(old(self)),
            final(self).balanced(old(self)),
            final(self).builder == old(self).builder,
    {
        proof {
            reveal(GenFun::open_inv);
            reveal(GenFun::base_inv);
        }
        let n = self.break_used.len();
        self.break_used.set(n - 1, true);
    }

    /// Whether the innermost scope defines the variable `name`.
    fn defined_here(&self, name: &str, Ghost(pending): Ghost<Set<BlockId>>) -> (r: bool)
        requires
            self.open_inv(pending),
        ensures
            self.env().scopes.len() > 0,
            r == self.env().scopes.last().contains(name@),
    {
        proof {
            reveal(GenFun::open_inv);
            reveal(GenFun::base_inv);
            assert(self.env().scopes.last() == self.var_scope@.last().dom());
        }
        self.var_scope.get(name).is_some()
    }

    /// Every block of the block order is a block of the function.
    proof fn lemma_blocks_valid(&self, pending: Set<BlockId>)
        requires
            self.open_inv(pending) || self.closed_inv(pending),
        ensures
            forall|b: BlockId| self.fun().blocks.contains(b) ==> self.fun().has_block(b),
    {
        reveal(GenFun::open_inv);
        reveal(GenFun::closed_inv);
        reveal(GenFun::base_inv);
        assert forall|b: BlockId| self.fun().blocks.contains(b) implies self.fun().has_block(
            b,
        ) by {
            let i = choose|i: int| 0 <= i < self.fun().blocks.len() && self.fun().blocks[i] == b;
            assert(self.fun().has_block(self.fun().blocks[i]));
        }
    }

    // ----- gen_expr -----

    /// The type of the value of `e`.
    fn type_of_expr(&self, e: &AST) -> (r: Scalar)
        ensures
            r == type_of(*e, self.env().types, self.sigs()),
        decreases e,
    {
        match e {
            AST::Ident(name) => match self.var_types.get_all(name.as_str()) {
                Some(ty) => *ty,
                None => Scalar::Int,
            },
            AST::Assign(lhs, _) => self.type_of_expr(lhs),
            AST::Call(name, _) => {
                let module = self.module;
                match module.get_function_by_name(name.as_str()) {
                    Some(id) => {
                        proof {
                            assert(self.sigs()[id.index as int].name == name@);
                            lemma_first_named(self.sigs(), name@, 0, id.index as int);
                        }
                        Scalar::of(module.get_function(id).ret_ty())
                    },
                    None => Scalar::Int,
                }
            },
            AST::Cast(ty, _) => Scalar::of(ty),
            AST::Ternary(_, a, _) => self.type_of_expr(a),
            _ => Scalar::Int,
        }
    }

    fn gen_expr(&mut self, expr: &AST, Ghost(pending): Ghost<Set<BlockId>>) -> (r: Expected<InstId>)
        requires
            old(self).open_inv(pending),
        ensures
            final(self).expr_post(
                old(self),
                pending,
                check_expr(*expr, old(self).env(), old(self).sigs(), old(self).ret),
                lower_expr(*expr, old(self).state(), old(self).module@),
                r,
            ),
        decreases expr, 1nat, 0nat,
    {
        match expr {
            AST::Eq(n, m)
            | AST::Ne(n, m)
            | AST::Lt(n, m)
            | AST::Le(n, m)
            | AST::Add(n, m)
            | AST::Sub(n, m)
            | AST::Mul(n, m)
            | AST::Div(n, m) => {
                let ints = self.type_of_expr(n) == Scalar::Int && self.type_of_expr(m)
                    == Scalar::Int;
                let v1 = self.gen_expr(n, Ghost(pending))?;
                let ghost mid = *self;
                let v2 = self.gen_expr(m, Ghost(pending))?;
                if !ints {
                    return Err(ErrorKind::ExpressionUnsupported);
                }
                let kind = match expr {
                    AST::Eq(..) => crate::ir::inst::InstKind::Eq(v1, v2),
                    AST::Ne(..) => crate::ir::inst::InstKind::Ne(v1, v2),
                    AST::Lt(..) => crate::ir::inst::InstKind::Lt(v1, v2),
                    AST::Le(..) => crate::ir::inst::InstKind::Le(v1, v2),
                    AST::Add(..) => crate::ir::inst::InstKind::Add(v1, v2),
                    AST::Sub(..) => crate::ir::inst::InstKind::Sub(v1, v2),
                    AST::Mul(..) => crate::ir::inst::InstKind::Mul(v1, v2),
                    _ => crate::ir::inst::InstKind::Div(v1, v2),
                };
                Ok(self.emit(kind, Ghost(pending)))
            },
            AST::Call(name, args) => self.gen_call(expr, Ghost(pending)),
            AST::Num(n) => Ok(self.emit(crate::ir::inst::InstKind::Const(*n), Ghost(pending))),
            AST::Assign(..) | AST::Ident(..) => {
                let mem = self.gen_addr(expr, Ghost(pending))?;
                Ok(self.emit(crate::ir::inst::InstKind::Load(mem), Ghost(pending)))
            },
            AST::Ternary(..) => self.gen_ternary(expr, Ghost(pending)),
            AST::Cast(ty, n) => {
                let from = self.type_of_expr(n);
                let to = Scalar::of(ty);
                if to == Scalar::Int || (to == Scalar::Char && from == Scalar::Char) {
                    self.gen_expr(n, Ghost(pending))
                } else {
                    Err(ErrorKind::CastUnsupported)
                }
            },
            AST::Block(stmts) => {
                match self.gen_block(stmts, Ghost(pending)) {
                    Ok(StmtKind::Expr(v)) => Ok(v),
                    Ok(_) => Err(ErrorKind::StatementExpressionValue),
                    Err(k) => Err(k),
                }
            },
            AST::Addr(_) | AST::Deref(_) | AST::Dot(..) | AST::Str(_) => Err(
                ErrorKind::ExpressionUnsupported,
            ),
        }
    }

    /// Lowers a call: the arguments in order, then the call itself.
    fn gen_call(&mut self, expr: &AST, Ghost(pending): Ghost<Set<BlockId>>) -> (r: Expected<InstId>)
        requires
            old(self).open_inv(pending),
            *expr is Call,
        ensures
            final(self).expr_post(
                old(self),
                pending,
                check_expr(*expr, old(self).env(), old(self).sigs(), old(self).ret),
                lower_expr(*expr, old(self).state(), old(self).module@),
                r,
            ),
        decreases expr, 0nat, 0nat,
    {
        let (name, args) = match expr {
            AST::Call(name, args) => (name, args),
            _ => {
                return Err(ErrorKind::ExpressionUnsupported);
            },
        };
        let module = self.module;
        let fun_id = match module.get_function_by_name(name.as_str()) {
            Some(id) => id,
            None => {
                return Err(ErrorKind::FunctionMissing);
            },
        };
        proof {
            assert(old(self).sigs()[fun_id.index as int].name == name@);
            lemma_first_named(old(self).sigs(), name@, 0, fun_id.index as int);
            assert(find_signature(old(self).sigs(), name@) == Some(fun_id.index as int));
        }
        let callee = module.get_function(fun_id);
        let param_tys = callee.param_tys();
        let mut agree = args.len() == param_tys.len();
        let mut j: usize = 0;
        while agree && j < args.len()
            invariant
                j <= args@.len(),
                *self == *old(self),
                agree ==> args@.len() == param_tys@.len(),
                agree == (args@.len() == param_tys@.len() && forall|n: int|
                    0 <= n < j ==> scalar_of(#[trigger] param_tys@[n]) != Scalar::Other && type_of(
                        args@[n],
                        old(self).env().types,
                        old(self).sigs(),
                    ) == scalar_of(param_tys@[n])),
            decreases args@.len() - j,
        {
            let want = Scalar::of(&param_tys[j]);
            if want == Scalar::Other || self.type_of_expr(&args[j]) != want {
                agree = false;
            }
            j += 1;
        }
        assert(agree == args_agree(
            args@,
            param_tys@,
            old(self).env().types,
            old(self).sigs(),
        ));
        let mut values: Vec<InstId> = Vec::new();
        let mut i: usize = 0;
        while i < args.len()
            invariant
                i <= args@.len(),
                *expr == AST::Call(*name, *args),
                find_signature(old(self).sigs(), name@) == Some(fun_id.index as int),
                self.open_inv(pending),
                self.extends(old(self)),
                self.balanced(old(self)),
                self.module == module,
                self.sigs() == old(self).sigs(),
                self.ret == old(self).ret,
                values@.len() == i,
                forall|j: int| 0 <= j < i ==> self.fun().has_inst(#[trigger] values@[j]),
                check_args(args@, 0, old(self).env(), old(self).sigs(), old(self).ret) == check_args(
                    args@,
                    i as nat,
                    self.env(),
                    old(self).sigs(),
                    old(self).ret,
                ),
                lower_args(args@, 0, old(self).state(), Seq::empty(), module@) == lower_args(
                    args@,
                    i as nat,
                    self.state(),
                    values@,
                    module@,
                ),
            decreases args@.len() - i,
        {
            let ghost before = *self;
            let v = self.gen_expr(&args[i], Ghost(pending))?;
            values.push(v);
            proof {
                assert forall|j: int| 0 <= j <= i implies self.fun().has_inst(
                    #[trigger] values@[j],
                ) by {
                    if j < i {
                        assert(before.fun().has_inst(values@[j]));
                    }
                }
            }
            i += 1;
        }
        if !agree {
            return Err(ErrorKind::ArgumentMismatch);
        }
        if Scalar::of(callee.ret_ty()) == Scalar::Other {
            return Err(ErrorKind::ExpressionUnsupported);
        }
        Ok(self.emit(crate::ir::inst::InstKind::Call(fun_id, values), Ghost(pending)))
    }

    /// Makes a stack slot that no name is bound to.
    fn fresh_slot(&mut self, Ghost(pending): Ghost<Set<BlockId>>) -> (id: MemoryId)
        requires
            old(self).open_inv(pending),
        ensures
            id == old(self).fun().next_memory_id(),
            final(self).state() == old(self).state().slot(),
            final(self).fun().has_memory(id),
            final(self).extends(old(self)),
            final(self).balanced(old(self)),
            final(self).env() == old(self).env(),
            final(self).builder.cursor() == old(self).builder.cursor(),
            final(self).fun().blocks == old(self).fun().blocks,
            final(self).open_inv(pending),
    {
        proof {
            reveal(Lowering::slot);
        }
        proof {
            reveal(GenFun::base_inv);
            reveal(GenFun::open_inv);
            reveal(GenFun::closed_inv);
        }
        let ghost f = self.fun();
        let mem_id = self.builder.build_alloca();
        proof {
            let g = self.fun();
            assert(g == f.with_memory());
            assert forall|b: BlockId| f.has_block(b) implies g.block(b) == f.block(b) by {}
            assert forall|x: InstId| f.has_inst(x) implies g.inst(x) == f.inst(x) by {}
            let open = self.builder.cursor().insert_block;
            assert forall|i: int| 0 <= i < g.blocks.len() implies ({
                let c = #[trigger] g.blocks[i];
                if open == Some(c) {
                    g.unclosed(c)
                } else if pending.contains(c) {
                    g.block(c).insts.len() == 0
                } else {
                    g.closed(c)
                }
            }) by {
                assert(f.has_block(f.blocks[i]));
            }
            assert forall|d: int, n: Seq<char>|
                0 <= d < self.var_scope@.len() && #[trigger] self.var_scope@[d].contains_key(
                    n,
                ) implies g.has_memory(self.var_scope@[d][n]) by {
                assert(f.has_memory(self.var_scope@[d][n]));
            }
        }
        mem_id
    }

    /// Lowers `c ? a : b`: each arm stores its value to a fresh stack slot
    /// and jumps to the block where the two meet, which loads it.
    fn gen_ternary(&mut self, expr: &AST, Ghost(pending): Ghost<Set<BlockId>>) -> (r: Expected<
        InstId,
    >)
        requires
            old(self).open_inv(pending),
            *expr is Ternary,
        ensures
            final(self).expr_post(
                old(self),
                pending,
                check_expr(*expr, old(self).env(), old(self).sigs(), old(self).ret),
                lower_expr(*expr, old(self).state(), old(self).module@),
                r,
            ),
        decreases expr, 0nat, 0nat,
    {
        let (cond, then, else_) = match expr {
            AST::Ternary(c, a, b) => (c, a, b),
            _ => {
                return Err(ErrorKind::ExpressionUnsupported);
            },
        };
        let same = self.type_of_expr(then) == self.type_of_expr(else_);
        let current_block = self.current_block(Ghost(pending));
        let then_block = self.new_block_after(current_block, Ghost(pending));
        let ghost w1 = pending.insert(then_block);
        let else_block = self.new_block_after(then_block, Ghost(w1));
        let ghost w2 = w1.insert(else_block);
        let merge_block = self.new_block_after(else_block, Ghost(w2));
        let ghost w3 = w2.insert(merge_block);
        let slot = self.fresh_slot(Ghost(w3));

        // cond:
        let v = self.gen_expr(cond, Ghost(w3))?;
        self.emit(crate::ir::inst::InstKind::Br(v, then_block, else_block), Ghost(w3));

        // then:
        self.enter(then_block, Ghost(w3));
        let ghost q1 = w3.remove(then_block);
        let v = self.gen_expr(then, Ghost(q1))?;
        self.emit(crate::ir::inst::InstKind::Store(slot, v), Ghost(q1));
        self.emit(crate::ir::inst::InstKind::Jmp(merge_block), Ghost(q1));

        // else:
        self.enter(else_block, Ghost(q1));
        let ghost q2 = q1.remove(else_block);
        let v = self.gen_expr(else_, Ghost(q2))?;
        if !same {
            return Err(ErrorKind::TernaryMismatch);
        }
        self.emit(crate::ir::inst::InstKind::Store(slot, v), Ghost(q2));
        self.emit(crate::ir::inst::InstKind::Jmp(merge_block), Ghost(q2));

        // merge:
        self.enter(merge_block, Ghost(q2));
        assert(q2.remove(merge_block) =~= pending);
        Ok(self.emit(crate::ir::inst::InstKind::Load(slot), Ghost(pending)))
    }

    // ----- gen_addr -----

    fn gen_addr(&mut self, expr: &AST, Ghost(pending): Ghost<Set<BlockId>>) -> (r: Expected<
        MemoryId,
    >)
        requires
            old(self).open_inv(pending),
        ensures
            final(self).addr_post(
                old(self),
                pending,
                check_addr(*expr, old(self).env(), old(self).sigs(), old(self).ret),
                lower_addr(*expr, old(self).state(), old(self).module@),
                r,
            ),
        decreases expr, 0nat, 0nat,
    {
        proof {
            reveal(GenFun::base_inv);
            reveal(GenFun::open_inv);
            reveal(GenFun::closed_inv);
        }
        match expr {
            AST::Assign(n, m) => {
                let same = self.type_of_expr(n) == self.type_of_expr(m);
                let rhs = self.gen_expr(m, Ghost(pending))?;
                let mem = self.gen_addr(n, Ghost(pending))?;
                if !same {
                    return Err(ErrorKind::AssignmentMismatch);
                }
                self.emit(crate::ir::inst::InstKind::Store(mem, rhs), Ghost(pending));
                Ok(mem)
            },
            AST::Ident(name) => {
                proof {
                    lemma_lookup_visible(self.var_scope@, name@);
                }
                match self.var_scope.get_all(name.as_str()) {
                    Some(mem) => Ok(*mem),
                    None => Err(ErrorKind::VariableUndeclared),
                }
            },
            AST::Deref(_) | AST::Dot(..) => Err(ErrorKind::ExpressionUnsupported),
            _ => Err(ErrorKind::RvalueAddress),
        }
    }

    // ----- gen_stmt -----

    /// Lowers the statements of a block in scopes of their own, up to the
    /// first that closes the block. The scopes are left on every path.
    fn gen_block(&mut self, stmts: &Vec<Stmt>, Ghost(pending): Ghost<Set<BlockId>>) -> (r: Expected<
        StmtKind,
    >)
        requires
            old(self).open_inv(pending),
        ensures
            final(self).stmt_post(
                old(self),
                pending,
                check_block(stmts@, old(self).env(), old(self).sigs(), old(self).ret),
                lower_block(stmts@, old(self).state(), old(self).module@),
                r,
            ),
        decreases stmts, 2nat, 0nat,
    {
        proof {
            reveal(GenFun::base_inv);
            reveal(GenFun::open_inv);
            reveal(GenFun::closed_inv);
        }
        self.var_scope.push();
        self.var_types.push();
        self.tag_scope.push();
        proof {
            assert(names_of(self.var_scope@) =~= old(self).env().scopes.push(Set::empty()));
            assert(names_of(self.tag_scope@) =~= old(self).env().tags.push(Set::empty()));
            assert forall|d: int, n: Seq<char>|
                0 <= d < self.var_scope@.len() && #[trigger] self.var_scope@[d].contains_key(
                    n,
                ) implies self.fun().has_memory(self.var_scope@[d][n]) by {
                if d < old(self).var_scope@.len() {
                    assert(old(self).var_scope@[d].contains_key(n));
                }
            }
        }
        let ghost inner = *self;
        proof {
            assert(inner.env() == (Env {
                scopes: old(self).env().scopes.push(Set::empty()),
                types: old(self).env().types.push(Map::empty()),
                tags: old(self).env().tags.push(Set::empty()),
                loops: old(self).env().loops,
            }));
            assert(inner.open_inv(pending));
        }
        let r = self.gen_stmts(stmts, Ghost(pending));
        let ghost done = *self;
        self.var_scope.pop();
        self.var_types.pop();
        self.tag_scope.pop();
        proof {
            assert(names_of(self.var_scope@) =~= done.env().scopes.drop_last());
            assert(names_of(self.tag_scope@) =~= done.env().tags.drop_last());
            if r is Ok {
                assert forall|d: int, n: Seq<char>|
                    0 <= d < self.var_scope@.len() && #[trigger] self.var_scope@[d].contains_key(
                        n,
                    ) implies self.fun().has_memory(self.var_scope@[d][n]) by {
                    assert(done.var_scope@[d].contains_key(n));
                }
            }
        }
        r
    }

    /// Lowers statements one after the other, up to the first that closes
    /// the block.
    fn gen_stmts(&mut self, stmts: &Vec<Stmt>, Ghost(pending): Ghost<Set<BlockId>>) -> (r: Expected<
        StmtKind,
    >)
        requires
            old(self).open_inv(pending),
        ensures
            final(self).stmt_post(
                old(self),
                pending,
                check_stmts(
                    stmts@,
                    0,
                    old(self).env(),
                    Flow::NoTerminator,
                    old(self).sigs(),
                    old(self).ret,
                ),
                lower_stmts(
                    stmts@,
                    0,
                    old(self).state(),
                    StmtKind::NoTerminator,
                    old(self).module@,
                ),
                r,
            ),
        decreases stmts, 1nat, 0nat,
    {
        let mut stmt_kind = StmtKind::NoTerminator;
        let mut i: usize = 0;
        while i < stmts.len() && !stmt_kind.is_terminator()
            invariant
                i <= stmts@.len(),
                self.extends(old(self)),
                self.balanced(old(self)),
                self.sigs() == old(self).sigs(),
                self.ret == old(self).ret,
                if stmt_kind.flow() is Terminator {
                    self.closed_inv(pending)
                } else {
                    self.open_inv(pending)
                },
                match stmt_kind {
                    StmtKind::Expr(v) => self.fun().has_inst(v),
                    _ => true,
                },
                check_stmts(
                    stmts@,
                    0,
                    old(self).env(),
                    Flow::NoTerminator,
                    old(self).sigs(),
                    old(self).ret,
                ) == check_stmts(
                    stmts@,
                    i as nat,
                    self.env(),
                    stmt_kind.flow(),
                    old(self).sigs(),
                    old(self).ret,
                ),
                lower_stmts(
                    stmts@,
                    0,
                    old(self).state(),
                    StmtKind::NoTerminator,
                    old(self).module@,
                ) == lower_stmts(stmts@, i as nat, self.state(), stmt_kind, old(self).module@),
            decreases stmts@.len() - i,
        {
            stmt_kind = self.gen_stmt(&stmts[i], Ghost(pending))?;
            i += 1;
        }
        Ok(stmt_kind)
    }

    fn gen_stmt(&mut self, stmt: &Stmt, Ghost(pending): Ghost<Set<BlockId>>) -> (r: Expected<
        StmtKind,
    >)
        requires
            old(self).open_inv(pending),
        ensures
            final(self).stmt_post(
                old(self),
                pending,
                check_stmt(*stmt, old(self).env(), old(self).sigs(), old(self).ret),
                lower_stmt(*stmt, old(self).state(), old(self).module@),
                r,
            ),
        decreases stmt, 1nat, 0nat,
    {
        match stmt {
            Stmt::VarDef(var_defs) => self.gen_var_defs(stmt, Ghost(pending)),
            Stmt::StructDef(ty) => {
                match self.gen_struct(ty, Ghost(pending)) {
                    Ok(()) => Ok(StmtKind::NoTerminator),
                    Err(k) => Err(k),
                }
            },
            Stmt::IfElse(..) => self.gen_if_else(stmt, Ghost(pending)),
            Stmt::For(..) => self.gen_for(stmt, Ghost(pending)),
            Stmt::Break => {
                let target = match self.loop_labels(Ghost(pending)) {
                    Some((b, _)) => b,
                    None => {
                        return Err(ErrorKind::BreakOutsideLoop);
                    },
                };
                self.mark_break(Ghost(pending));
                Ok(self.emit_jump(target, Ghost(pending)))
            },
            Stmt::Cont => {
                let target = match self.loop_labels(Ghost(pending)) {
                    Some((_, c)) => c,
                    None => {
                        return Err(ErrorKind::ContinueOutsideLoop);
                    },
                };
                Ok(self.emit_jump(target, Ghost(pending)))
            },
            Stmt::Return(expr) => {
                let same = self.type_of_expr(expr) == self.ret;
                let v1 = self.gen_expr(expr, Ghost(pending))?;
                if !same {
                    return Err(ErrorKind::ReturnTypeDiffers);
                }
                self.emit(crate::ir::inst::InstKind::Ret(v1), Ghost(pending));
                Ok(StmtKind::Terminator)
            },
            Stmt::Block(stmts) => self.gen_block(stmts, Ghost(pending)),
            Stmt::Expr(expr) => {
                match self.gen_expr(expr, Ghost(pending)) {
                    Ok(v) => Ok(StmtKind::Expr(v)),
                    Err(k) => Err(k),
                }
            },
        }
    }

    /// Closes the block that is being filled with a jump to `target`.
    fn emit_jump(&mut self, target: BlockId, Ghost(pending): Ghost<Set<BlockId>>) -> (r: StmtKind)
        requires
            old(self).open_inv(pending),
            old(self).fun().has_block(target),
        ensures
            final(self).state() == old(self).state().emit(InstKindView::Jmp(target)),
            r == StmtKind::Terminator,
            final(self).extends(old(self)),
            final(self).balanced(old(self)),
            final(self).env() == old(self).env(),
            final(self).closed_inv(pending),
    {
        proof {
            reveal(GenFun::base_inv);
            reveal(GenFun::open_inv);
            reveal(GenFun::closed_inv);
        }
        self.emit(crate::ir::inst::InstKind::Jmp(target), Ghost(pending));
        StmtKind::Terminator
    }

    /// Lowers variable definitions: each gets a stack slot and is bound in
    /// the innermost scope before its initialiser is lowered and stored.
    fn gen_var_defs(&mut self, stmt: &Stmt, Ghost(pending): Ghost<Set<BlockId>>) -> (r: Expected<
        StmtKind,
    >)
        requires
            old(self).open_inv(pending),
            *stmt is VarDef,
        ensures
            final(self).stmt_post(
                old(self),
                pending,
                check_stmt(*stmt, old(self).env(), old(self).sigs(), old(self).ret),
                lower_stmt(*stmt, old(self).state(), old(self).module@),
                r,
            ),
        decreases stmt, 0nat, 0nat,
    {
        let var_defs = match stmt {
            Stmt::VarDef(var_defs) => var_defs,
            _ => {
                return Err(ErrorKind::TypeUnsupported);
            },
        };
        let mut i: usize = 0;
        while i < var_defs.len()
            invariant
                i <= var_defs@.len(),
                *stmt == Stmt::VarDef(*var_defs),
                self.open_inv(pending),
                self.extends(old(self)),
                self.balanced(old(self)),
                self.sigs() == old(self).sigs(),
                self.ret == old(self).ret,
                check_var_defs(var_defs@, 0, old(self).env(), old(self).sigs(), old(self).ret) == check_var_defs(
                    var_defs@,
                    i as nat,
                    self.env(),
                    old(self).sigs(),
                    old(self).ret,
                ),
                lower_var_defs(var_defs@, 0, old(self).state(), old(self).module@) == lower_var_defs(
                    var_defs@,
                    i as nat,
                    self.state(),
                    old(self).module@,
                ),
            decreases var_defs@.len() - i,
        {
            let def = &var_defs[i];
            if self.defined_here(def.1.as_str(), Ghost(pending)) {
                return Err(ErrorKind::VariableExists);
            }
            let ty = Scalar::of(&def.0);
            if ty == Scalar::Other {
                return Err(ErrorKind::TypeUnsupported);
            }
            let mem = self.create_entry_block_alloca(ty, def.1.clone(), Ghost(pending));
            match &def.2 {
                Some(expr) => {
                    let same = self.type_of_expr(expr) == ty;
                    let rhs = self.gen_expr(expr, Ghost(pending))?;
                    if !same {
                        return Err(ErrorKind::AssignmentMismatch);
                    }
                    self.emit(crate::ir::inst::InstKind::Store(mem, rhs), Ghost(pending));
                },
                None => {},
            }
            i += 1;
        }
        Ok(StmtKind::NoTerminator)
    }

    /// Installs or looks up a struct tag.
    fn gen_struct(&mut self, ty: &Type, Ghost(pending): Ghost<Set<BlockId>>) -> (r: Expected<()>)
        requires
            old(self).open_inv(pending),
        ensures
            final(self).balanced(old(self)),
            final(self).extends(old(self)),
            members_of(final(self).tag_scope@) == if r is Ok {
                with_members(*ty, members_of(old(self).tag_scope@))
            } else {
                members_of(old(self).tag_scope@)
            },
            match check_struct(*ty, old(self).env().tags) {
                Err(k) => r == Err::<(), ErrorKind>(k),
                Ok(tags) => r is Ok && final(self).state() == (Lowering { tags, ..old(self).state() })
                    && final(self).env() == (Env { tags, ..old(self).env() })
                    && final(self).open_inv(pending),
            },
    {
        proof {
            reveal(GenFun::base_inv);
            reveal(GenFun::open_inv);
            reveal(GenFun::closed_inv);
        }
        match ty {
            Type::Struct(Some(name), Some(body)) => {
                proof {
                    lemma_lookup_visible(self.tag_scope@, name@);
                }
                if self.tag_scope.get_all(name.as_str()).is_some() {
                    return Err(ErrorKind::StructExists);
                }
                let mut members: Vec<String> = Vec::new();
                let mut i: usize = 0;
                while i < body.1.len()
                    invariant
                        i <= body.1@.len(),
                        members@.len() == i,
                        forall|j: int| 0 <= j < i ==> (#[trigger] members@[j])@ == body.1@[j]@,
                    decreases body.1@.len() - i,
                {
                    members.push(body.1[i].clone());
                    i += 1;
                }
                assert(names_view(members@) =~= names_view(body.1@));
                let ghost key = name@;
                let _ = self.tag_scope.insert(name.clone(), members);
                proof {
                    let a = names_of(self.tag_scope@);
                    let b = declare(names_of(old(self).tag_scope@), key);
                    assert(a.len() == b.len());
                    assert forall|i: int| 0 <= i < a.len() implies a[i] =~= b[i] by {}
                    assert(a =~= b);
                    let c = members_of(self.tag_scope@);
                    let d = with_members(*ty, members_of(old(self).tag_scope@));
                    assert(c.len() == d.len());
                    assert forall|i: int| 0 <= i < c.len() implies c[i] =~= d[i] by {}
                    assert(c =~= d);
                }
                Ok(())
            },
            Type::Struct(None, Some(_)) => Ok(()),
            Type::Struct(Some(name), None) => {
                proof {
                    lemma_lookup_visible(self.tag_scope@, name@);
                }
                if self.tag_scope.get_all(name.as_str()).is_some() {
                    Ok(())
                } else {
                    Err(ErrorKind::StructMissing)
                }
            },
            Type::Struct(None, None) => Err(ErrorKind::StructUnnamed),
            _ => Ok(()),
        }
    }

    /// Lowers `if (A) B else C`: a branch on `A` to a block for `B` or one
    /// for `C`, each of which jumps to the block that follows unless it is
    /// closed already. Where both arms are closed, nothing follows.
    fn gen_if_else(&mut self, stmt: &Stmt, Ghost(pending): Ghost<Set<BlockId>>) -> (r: Expected<
        StmtKind,
    >)
        requires
            old(self).open_inv(pending),
            *stmt is IfElse,
        ensures
            final(self).stmt_post(
                old(self),
                pending,
                check_stmt(*stmt, old(self).env(), old(self).sigs(), old(self).ret),
                lower_stmt(*stmt, old(self).state(), old(self).module@),
                r,
            ),
        decreases stmt, 0nat, 0nat,
    {
        let (cond, then, else_) = match stmt {
            Stmt::IfElse(cond, then, else_) => (cond, then, else_),
            _ => {
                return Err(ErrorKind::TypeUnsupported);
            },
        };
        proof {
            self.lemma_blocks_valid(pending);
        }
        let current_block = self.current_block(Ghost(pending));
        let then_block = self.new_block_after(current_block, Ghost(pending));
        let ghost w1 = pending.insert(then_block);
        let else_block = self.new_block_after(then_block, Ghost(w1));
        let ghost w2 = w1.insert(else_block);
        let ghost mut w3 = w2;
        let ghost branched = *self;
        let merge_block = if else_.is_some() {
            let b = self.new_block_after(else_block, Ghost(w2));
            proof {
                w3 = w2.insert(b);
            }
            b
        } else {
            else_block
        };

        // cond:
        let v = self.gen_expr(cond, Ghost(w3))?;
        self.emit(crate::ir::inst::InstKind::Br(v, then_block, else_block), Ghost(w3));

        // then:
        self.enter(then_block, Ghost(w3));
        let ghost q1 = w3.remove(then_block);
        let then_kind = self.gen_stmt(then, Ghost(q1))?;
        if !then_kind.is_terminator() {
            self.emit(crate::ir::inst::InstKind::Jmp(merge_block), Ghost(q1));
        }
        // else:
        match else_ {
            Some(else_stmt) => {
                self.enter(else_block, Ghost(q1));
                let ghost q2 = q1.remove(else_block);
                let else_kind = self.gen_stmt(else_stmt, Ghost(q2))?;
                if !else_kind.is_terminator() {
                    self.emit(crate::ir::inst::InstKind::Jmp(merge_block), Ghost(q2));
                }
                // merge:
                assert(q2.remove(merge_block) =~= pending);
                let ghost filled = *self;
                assert forall|b: BlockId| #[trigger]
                    old(self).fun().blocks.contains(b) implies filled.fun().blocks.contains(b) && b
                    != merge_block by {
                    assert(old(self).fun().has_block(b));
                    assert(branched.fun().has_block(b));
                }
                if then_kind.is_terminator() && else_kind.is_terminator() {
                    self.drop_block(merge_block, Ghost(q2));
                    assert(filled.extends(old(self)));
                    assert(self.module == old(self).module);
                    assert(self.break_label@ == old(self).break_label@);
                    assert(self.cont_label@ == old(self).cont_label@);
                    assert(self.break_used@.len() == old(self).break_used@.len());
                    assert forall|b: BlockId|
                        old(self).fun().blocks.contains(b) implies #[trigger] self.fun().blocks.contains(
                        b,
                    ) by {
                        assert(filled.fun().blocks.contains(b) && b != merge_block);
                    }
                    assert(old(self).fun().within(self.fun()));
                    assert(self.extends(old(self)));
                    Ok(StmtKind::Terminator)
                } else {
                    self.enter(merge_block, Ghost(q2));
                    Ok(StmtKind::NoTerminator)
                }
            },
            None => {
                assert(q1.remove(else_block) =~= pending);
                self.enter(else_block, Ghost(q1));
                Ok(StmtKind::NoTerminator)
            },
        }
    }

    /// Puts the labels of a loop on their stacks.
    fn push_loop(&mut self, end_block: BlockId, inc_block: BlockId, Ghost(pending): Ghost<
        Set<BlockId>,
    >)
        requires
            old(self).open_inv(pending),
            old(self).fun().has_block(end_block),
            old(self).fun().has_block(inc_block),
        ensures
            final(self).state() == (Lowering {
                breaks: old(self).state().breaks.push(end_block),
                conts: old(self).state().conts.push(inc_block),
                used: old(self).state().used.push(false),
                ..old(self).state()
            }),
            final(self).open_inv(pending),
            final(self).env() == (Env {
                loops: old(self).env().loops.push(false),
                ..old(self).env()
            }),
            final(self).break_label@ == old(self).break_label@.push(end_block),
            final(self).cont_label@ == old(self).cont_label@.push(inc_block),
            final(self).break_used@ == old(self).break_used@.push(false),
            final(self).break_label@.len() == final(self).break_used@.len(),
            final(self).cont_label@.len() == final(self).break_used@.len(),
            final(self).builder == old(self).builder,
            final(self).var_scope == old(self).var_scope,
            final(self).tag_scope == old(self).tag_scope,
            final(self).module == old(self).module,
            final(self).ret == old(self).ret,
    {
        proof {
            reveal(GenFun::base_inv);
            reveal(GenFun::open_inv);
            reveal(GenFun::closed_inv);
        }
        self.break_label.push(end_block);
        self.cont_label.push(inc_block);
        self.break_used.push(false);
    }

    /// Takes the labels of the innermost loop off their stacks, and says
    /// whether a `break` was lowered for it.
    fn pop_loop(&mut self, Ghost(pending): Ghost<Set<BlockId>>) -> (used: bool)
        requires
            old(self).break_used@.len() > 0,
            old(self).break_label@.len() == old(self).break_used@.len(),
            old(self).cont_label@.len() == old(self).break_used@.len(),
        ensures
            final(self).state() == (Lowering {
                breaks: old(self).state().breaks.drop_last(),
                conts: old(self).state().conts.drop_last(),
                used: old(self).state().used.drop_last(),
                ..old(self).state()
            }),
            used == old(self).break_used@.last(),
            old(self).closed_inv(pending) ==> final(self).closed_inv(pending),
            final(self).env() == (Env {
                loops: old(self).env().loops.drop_last(),
                ..old(self).env()
            }),
            final(self).break_label@ == old(self).break_label@.drop_last(),
            final(self).cont_label@ == old(self).cont_label@.drop_last(),
            final(self).break_used@ == old(self).break_used@.drop_last(),
            final(self).builder == old(self).builder,
            final(self).var_scope == old(self).var_scope,
            final(self).tag_scope == old(self).tag_scope,
            final(self).module == old(self).module,
            final(self).ret == old(self).ret,
    {
        proof {
            reveal(GenFun::base_inv);
            reveal(GenFun::open_inv);
            reveal(GenFun::closed_inv);
        }
        let used = self.break_used.pop();
        let _ = self.cont_label.pop();
        let _ = self.break_label.pop();
        used.unwrap()
    }

    /// Makes the four blocks of a loop, one after the other, behind the
    /// block that is being filled: for the condition, the body, the
    /// increment, and what follows the loop.
    fn loop_blocks(&mut self, Ghost(pending): Ghost<Set<BlockId>>) -> (r: (
        BlockId,
        BlockId,
        BlockId,
        BlockId,
    ))
        requires
            old(self).open_inv(pending),
        ensures
            r.0 == old(self).state().f.next_block_id(),
            r.1 == old(self).state().block_after(old(self).state().at).f.next_block_id(),
            r.2 == old(self).state().block_after(old(self).state().at).block_after(
                r.0,
            ).f.next_block_id(),
            r.3 == old(self).state().block_after(old(self).state().at).block_after(
                r.0,
            ).block_after(r.1).f.next_block_id(),
            final(self).state() == old(self).state().block_after(
                old(self).state().at,
            ).block_after(r.0).block_after(r.1).block_after(r.2),
            final(self).open_inv(pending.insert(r.0).insert(r.1).insert(r.2).insert(r.3)),
            !pending.contains(r.0) && !pending.contains(r.1) && !pending.contains(r.2)
                && !pending.contains(r.3),
            !old(self).fun().has_block(r.0) && !old(self).fun().has_block(r.1) && !old(self).fun().has_block(r.2) && !old(self).fun().has_block(r.3),
            r.0 != r.1 && r.0 != r.2 && r.0 != r.3 && r.1 != r.2 && r.1 != r.3 && r.2 != r.3,
            final(self).fun().blocks.contains(r.0) && final(self).fun().blocks.contains(r.1)
                && final(self).fun().blocks.contains(r.2) && final(self).fun().blocks.contains(r.3),
            final(self).fun().has_block(r.0) && final(self).fun().has_block(r.1) && final(self).fun().has_block(r.2) && final(self).fun().has_block(r.3),
            final(self).extends(old(self)),
            final(self).balanced(old(self)),
            final(self).env() == old(self).env(),
            final(self).builder.cursor() == old(self).builder.cursor(),
    {
        let current_block = self.current_block(Ghost(pending));
        let cond_block = self.new_block_after(current_block, Ghost(pending));
        let ghost w1 = pending.insert(cond_block);
        let body_block = self.new_block_after(cond_block, Ghost(w1));
        let ghost w2 = w1.insert(body_block);
        let inc_block = self.new_block_after(body_block, Ghost(w2));
        let ghost w3 = w2.insert(inc_block);
        let end_block = self.new_block_after(inc_block, Ghost(w3));
        (cond_block, body_block, inc_block, end_block)
    }

    /// Lowers `for (A; B; C) D`: `A`, then a block that branches on `B` to
    /// the body or past the loop, the body, and a block for `C` that jumps
    /// back. `break` jumps past the loop and `continue` to `C`. Where neither
    /// `B` nor a `break` leads past the loop, nothing follows it. The loop
    /// labels are taken off on every path.
    #[verifier::rlimit(30)]
    fn gen_for(&mut self, stmt: &Stmt, Ghost(pending): Ghost<Set<BlockId>>) -> (r: Expected<
        StmtKind,
    >)
        requires
            old(self).open_inv(pending),
            *stmt is For,
        ensures
            final(self).stmt_post(
                old(self),
                pending,
                check_stmt(*stmt, old(self).env(), old(self).sigs(), old(self).ret),
                lower_stmt(*stmt, old(self).state(), old(self).module@),
                r,
            ),
        decreases stmt, 0nat, 1nat,
    {
        proof {
            self.lemma_blocks_valid(pending);
        }
        let (cond_block, body_block, inc_block, end_block) = self.loop_blocks(Ghost(pending));
        let ghost w4 = pending.insert(cond_block).insert(body_block).insert(inc_block).insert(
            end_block,
        );
        self.push_loop(end_block, inc_block, Ghost(w4));
        let ghost inner = *self;
        let r = self.gen_for_parts(
            stmt,
            cond_block,
            body_block,
            inc_block,
            end_block,
            Ghost(pending),
        );
        let ghost done = *self;
        let ghost q = pending.insert(end_block);
        let used = self.pop_loop(Ghost(q));
        let ghost popped = *self;
        proof {
            assert(inner.break_label@.drop_last() =~= old(self).break_label@);
            assert(inner.cont_label@.drop_last() =~= old(self).cont_label@);
            assert(inner.break_used@.drop_last() =~= old(self).break_used@);
            assert(inner.env().loops.drop_last() =~= old(self).env().loops);
        }
        match r {
            Ok(conditional) => {
                assert(q.remove(end_block) =~= pending);
                assert(done.extends(&inner));
                assert(popped.break_label@ =~= old(self).break_label@);
                assert(popped.cont_label@ =~= old(self).cont_label@);
                assert(popped.fun().blocks.contains(end_block));
                assert forall|b: BlockId| #[trigger]
                    old(self).fun().blocks.contains(b) implies popped.fun().blocks.contains(b) && b
                    != end_block by {
                    assert(inner.fun().blocks.contains(b));
                    assert(done.fun().blocks.contains(b));
                }
                if !conditional && !used {
                    self.drop_block(end_block, Ghost(q));
                    assert(self.extends(old(self)));
                    Ok(StmtKind::Terminator)
                } else {
                    self.enter(end_block, Ghost(q));
                    assert(self.extends(old(self)));
                    Ok(StmtKind::NoTerminator)
                }
            },
            Err(k) => Err(k),
        }
    }

    /// Lowers the parts of a loop into the blocks made for them, and says
    /// whether the loop has a condition.
    #[verifier::rlimit(30)]
    fn gen_for_parts(
        &mut self,
        stmt: &Stmt,
        cond_block: BlockId,
        body_block: BlockId,
        inc_block: BlockId,
        end_block: BlockId,
        Ghost(pending): Ghost<Set<BlockId>>,
    ) -> (r: Expected<bool>)
        requires
            *stmt is For,
            old(self).open_inv(
                pending.insert(cond_block).insert(body_block).insert(inc_block).insert(end_block),
            ),
            !pending.contains(cond_block),
            !pending.contains(body_block),
            !pending.contains(inc_block),
            !pending.contains(end_block),
            cond_block != body_block,
            cond_block != inc_block,
            cond_block != end_block,
            body_block != inc_block,
            body_block != end_block,
            inc_block != end_block,
            old(self).fun().has_block(cond_block),
            old(self).fun().has_block(body_block),
            old(self).fun().has_block(inc_block),
            old(self).fun().has_block(end_block),
            old(self).fun().blocks.contains(cond_block),
            old(self).fun().blocks.contains(body_block),
            old(self).fun().blocks.contains(inc_block),
            old(self).fun().blocks.contains(end_block),
            old(self).break_label@.len() > 0,
            old(self).break_label@.last() == end_block,
            old(self).cont_label@.last() == inc_block,
        ensures
            final(self).balanced(old(self)),
            final(self).extends(old(self)),
            match check_loop(*stmt, old(self).env(), old(self).sigs(), old(self).ret) {
                Ok(env4) => r == Ok::<bool, ErrorKind>(stmt->For_1 is Some) && final(self).env()
                    == env4 && final(self).state() == lower_loop(
                    *stmt,
                    old(self).state(),
                    cond_block,
                    body_block,
                    inc_block,
                    end_block,
                    old(self).module@,
                ) && final(self).closed_inv(pending.insert(end_block)),
                Err(k) => r == Err::<bool, ErrorKind>(k),
            },
        decreases stmt, 0nat, 0nat,
    {
        let (init, cond, inc, body) = match stmt {
            Stmt::For(init, cond, inc, body) => (init, cond, inc, body),
            _ => {
                return Err(ErrorKind::TypeUnsupported);
            },
        };
        let ghost w4 = pending.insert(cond_block).insert(body_block).insert(inc_block).insert(
            end_block,
        );
        // init:
        match init {
            Some(expr) => {
                self.gen_expr(expr, Ghost(w4))?;
            },
            None => {},
        }
        self.emit(crate::ir::inst::InstKind::Jmp(cond_block), Ghost(w4));

        // cond:
        self.enter(cond_block, Ghost(w4));
        let ghost q1 = w4.remove(cond_block);
        match cond {
            Some(expr) => {
                let v = self.gen_expr(expr, Ghost(q1))?;
                self.emit(crate::ir::inst::InstKind::Br(v, body_block, end_block), Ghost(q1));
            },
            None => {
                self.emit(crate::ir::inst::InstKind::Jmp(body_block), Ghost(q1));
            },
        }

        // body:
        self.enter(body_block, Ghost(q1));
        let ghost q2 = q1.remove(body_block);
        let body_kind = self.gen_stmt(body, Ghost(q2))?;
        if !body_kind.is_terminator() {
            self.emit(crate::ir::inst::InstKind::Jmp(inc_block), Ghost(q2));
        }
        // inc:

        self.enter(inc_block, Ghost(q2));
        let ghost q3 = q2.remove(inc_block);
        match inc {
            Some(expr) => {
                self.gen_expr(expr, Ghost(q3))?;
            },
            None => {},
        }
        self.emit(crate::ir::inst::InstKind::Jmp(cond_block), Ghost(q3));
        assert(q3 =~= pending.insert(end_block));
        Ok(cond.is_some())
    }
}

// ----- what lowering builds -----

/// How far the lowering of a function body has come: the function as it
/// is built so far, the block that instructions go to, the stack slot of
/// each variable in scope, the struct tags in scope, and for each enclosing
/// loop the blocks that `break` and `continue` jump to and whether a `break`
/// was lowered for it.
pub struct Lowering {
    pub f: FunctionView,
    pub at: BlockId,
    pub vars: Seq<Map<Seq<char>, MemoryId>>,
    pub tags: Seq<Set<Seq<char>>>,
    pub breaks: Seq<BlockId>,
    pub conts: Seq<BlockId>,
    pub used: Seq<bool>,
}

impl Lowering {
    /// An instruction of kind `kind` appended to the block that is being
    /// filled. Its identifier is the next that the function issues.
    #[verifier::opaque]
    pub open spec fn emit(self, kind: InstKindView) -> Lowering {
        Lowering {
            f: self.f.built(
                Cursor { insert_block: Some(self.at), insert_point: InsertPoint::After },
                kind,
            ),
            ..self
        }
    }

    /// A new empty block right after block `b` in the block order. Its
    /// identifier is the next that the function issues.
    #[verifier::opaque]
    pub open spec fn block_after(self, b: BlockId) -> Lowering {
        Lowering { f: self.f.with_block_at(self.f.blocks.index_of(b) + 1), ..self }
    }

    /// Instructions go to block `b` from now on.
    pub open spec fn enter(self, b: BlockId) -> Lowering {
        Lowering { at: b, ..self }
    }

    /// Block `b` taken out of the block order.
    #[verifier::opaque]
    pub open spec fn drop_block(self, b: BlockId) -> Lowering {
        Lowering { f: self.f.without_block_at(self.f.blocks.index_of(b)), ..self }
    }

    /// A new stack slot. Its identifier is the next that the function
    /// issues.
    #[verifier::opaque]
    pub open spec fn slot(self) -> Lowering {
        Lowering { f: self.f.with_memory(), ..self }
    }

    /// The variable `name` bound to slot `m` in the innermost scope.
    #[verifier::opaque]
    pub open spec fn bind(self, name: Seq<char>, m: MemoryId) -> Lowering {
        Lowering {
            vars: self.vars.update(self.vars.len() - 1, self.vars.last().insert(name, m)),
            ..self
        }
    }

    /// The three blocks of a choice between two arms, made one after the
    /// other behind the block that is being filled: for the first arm, for
    /// the second, and for what follows.
    pub open spec fn choice_blocks(self) -> (Lowering, BlockId, BlockId, BlockId) {
        let b1 = self.f.next_block_id();
        let st1 = self.block_after(self.at);
        let b2 = st1.f.next_block_id();
        let st2 = st1.block_after(b1);
        let b3 = st2.f.next_block_id();
        let st3 = st2.block_after(b2);
        (st3, b1, b2, b3)
    }
}

/// The instruction that a comparison or an arithmetic expression is lowered
/// to, on the values of its operands.
pub open spec fn binary_kind(e: AST, v1: InstId, v2: InstId) -> InstKindView {
    match e {
        AST::Eq(..) => InstKindView::Eq(v1, v2),
        AST::Ne(..) => InstKindView::Ne(v1, v2),
        AST::Lt(..) => InstKindView::Lt(v1, v2),
        AST::Le(..) => InstKindView::Le(v1, v2),
        AST::Add(..) => InstKindView::Add(v1, v2),
        AST::Sub(..) => InstKindView::Sub(v1, v2),
        AST::Mul(..) => InstKindView::Mul(v1, v2),
        _ => InstKindView::Div(v1, v2),
    }
}

/// What the expression `e` is lowered to from the state `st`, where it is
/// lowered: the state then, and the instruction that is its value.
///
/// Operands are lowered left to right. A variable is a load from its slot;
/// an assignment stores the right side to the slot that the left side names
/// and loads the slot again. A call lowers its arguments in order. The arms
/// of `c ? a : b` get a block each, store their value to one fresh slot and
/// jump to a third block, which loads it. A cast to `int` is its operand. A
/// statement expression is its statements, in scopes of their own.
pub open spec fn lower_expr(e: AST, st: Lowering, m: ModuleView) -> (Lowering, InstId)
    decreases e, 1nat, 0nat,
{
    match e {
        AST::Num(n) => (st.emit(InstKindView::Const(n)), st.f.next_inst_id()),
        AST::Eq(a, b)
        | AST::Ne(a, b)
        | AST::Lt(a, b)
        | AST::Le(a, b)
        | AST::Add(a, b)
        | AST::Sub(a, b)
        | AST::Mul(a, b)
        | AST::Div(a, b) => {
            let (st1, v1) = lower_expr(*a, st, m);
            let (st2, v2) = lower_expr(*b, st1, m);
            (st2.emit(binary_kind(e, v1, v2)), st2.f.next_inst_id())
        },
        AST::Ident(_) | AST::Assign(..) => {
            let (st1, slot) = lower_addr(e, st, m);
            (st1.emit(InstKindView::Load(slot)), st1.f.next_inst_id())
        },
        AST::Call(name, args) => {
            let callee = m.id_at(find_signature(signatures(m), name@).unwrap());
            let (st1, values) = lower_args(args@, 0, st, Seq::empty(), m);
            (st1.emit(InstKindView::Call(callee, values)), st1.f.next_inst_id())
        },
        AST::Ternary(c, a, b) => {
            let (st3, then_block, else_block, merge_block) = st.choice_blocks();
            let slot = st3.f.next_memory_id();
            let (st5, cv) = lower_expr(*c, st3.slot(), m);
            let st6 = st5.emit(InstKindView::Br(cv, then_block, else_block)).enter(then_block);
            let (st7, av) = lower_expr(*a, st6, m);
            let st8 = st7.emit(InstKindView::Store(slot, av)).emit(
                InstKindView::Jmp(merge_block),
            ).enter(else_block);
            let (st9, bv) = lower_expr(*b, st8, m);
            let st10 = st9.emit(InstKindView::Store(slot, bv)).emit(
                InstKindView::Jmp(merge_block),
            ).enter(merge_block);
            (st10.emit(InstKindView::Load(slot)), st10.f.next_inst_id())
        },
        AST::Cast(_, a) => lower_expr(*a, st, m),
        AST::Block(stmts) => {
            let (st1, kind) = lower_block(stmts@, st, m);
            (
                st1,
                match kind {
                    StmtKind::Expr(v) => v,
                    _ => st.f.next_inst_id(),
                },
            )
        },
        AST::Addr(_) | AST::Deref(_) | AST::Dot(..) | AST::Str(_) => (st, st.f.next_inst_id()),
    }
}

/// The stack slot that the expression `e` names, and the state once what
/// it takes to name it is lowered.
pub open spec fn lower_addr(e: AST, st: Lowering, m: ModuleView) -> (Lowering, MemoryId)
    decreases e, 0nat, 0nat,
{
    match e {
        AST::Assign(lhs, rhs) => {
            let (st1, value) = lower_expr(*rhs, st, m);
            let (st2, slot) = lower_addr(*lhs, st1, m);
            (st2.emit(InstKindView::Store(slot, value)), slot)
        },
        AST::Ident(name) => (
            st,
            match lookup_all(st.vars, name@) {
                Some(slot) => slot,
                None => st.f.next_memory_id(),
            },
        ),
        _ => (st, st.f.next_memory_id()),
    }
}

/// The arguments `args` from position `i` on, lowered in order; `values`
/// are the values of those before.
pub open spec fn lower_args(
    args: Seq<AST>,
    i: nat,
    st: Lowering,
    values: Seq<InstId>,
    m: ModuleView,
) -> (Lowering, Seq<InstId>)
    decreases args, args.len() - i, 0nat,
{
    if i >= args.len() {
        (st, values)
    } else {
        let (st1, v) = lower_expr(args[i as int], st, m);
        lower_args(args, i + 1, st1, values.push(v), m)
    }
}

/// The statements `stmts` lowered as a block with scopes of its own.
pub open spec fn lower_block(stmts: Seq<Stmt>, st: Lowering, m: ModuleView) -> (
    Lowering,
    StmtKind,
)
    decreases stmts, stmts.len() + 1, 0nat,
{
    let inner = Lowering {
        vars: st.vars.push(Map::empty()),
        tags: st.tags.push(Set::empty()),
        ..st
    };
    let (st1, kind) = lower_stmts(stmts, 0, inner, StmtKind::NoTerminator, m);
    (Lowering { vars: st1.vars.drop_last(), tags: st1.tags.drop_last(), ..st1 }, kind)
}

/// The statements `stmts` from position `i` on, lowered one after the
/// other up to the first that closes the block; `kind` is what the statement
/// before position `i` was lowered to.
pub open spec fn lower_stmts(
    stmts: Seq<Stmt>,
    i: nat,
    st: Lowering,
    kind: StmtKind,
    m: ModuleView,
) -> (Lowering, StmtKind)
    decreases stmts, stmts.len() - i, 0nat,
{
    if i >= stmts.len() || kind.flow() is Terminator {
        (st, kind)
    } else {
        let (st1, kind1) = lower_stmt(stmts[i as int], st, m);
        lower_stmts(stmts, i + 1, st1, kind1, m)
    }
}

/// The variable definitions `defs` from position `i` on, lowered: each
/// variable gets a fresh stack slot and is bound before its initialiser is
/// lowered and stored.
pub open spec fn lower_var_defs(
    defs: Seq<(Type, String, Option<AST>)>,
    i: nat,
    st: Lowering,
    m: ModuleView,
) -> Lowering
    decreases defs, defs.len() - i, 0nat,
{
    if i >= defs.len() {
        st
    } else {
        let (_, name, init) = defs[i as int];
        let slot = st.f.next_memory_id();
        let st1 = st.slot().bind(name@, slot);
        match init {
            Some(e) => {
                let (st2, value) = lower_expr(e, st1, m);
                lower_var_defs(defs, i + 1, st2.emit(InstKindView::Store(slot, value)), m)
            },
            None => lower_var_defs(defs, i + 1, st1, m),
        }
    }
}

/// The block that is being filled, closed with a jump to `target` unless
/// `kind` says that it is closed already.
pub open spec fn joined(st: Lowering, kind: StmtKind, target: BlockId) -> Lowering {
    if kind.flow() is Terminator {
        st
    } else {
        st.emit(InstKindView::Jmp(target))
    }
}

/// What the statement `s` is lowered to from the state `st`, where it is
/// lowered: the state then, and whether the block that is being filled is
/// closed.
///
/// `if (A) B else C` branches on `A` to a block for `B` or one for `C`; an
/// arm that is not closed jumps to the block that follows, which is dropped
/// where both arms are closed. Without `else`, the block for `C` is the one
/// that follows. `break` and `continue` jump to the labels of the innermost
/// loop, and `return` returns a value.
pub open spec fn lower_stmt(s: Stmt, st: Lowering, m: ModuleView) -> (Lowering, StmtKind)
    decreases s, 1nat, 0nat,
{
    match s {
        Stmt::VarDef(defs) => (lower_var_defs(defs@, 0, st, m), StmtKind::NoTerminator),
        Stmt::StructDef(ty) => (
            Lowering {
                tags: match check_struct(ty, st.tags) {
                    Ok(tags) => tags,
                    Err(_) => st.tags,
                },
                ..st
            },
            StmtKind::NoTerminator,
        ),
        Stmt::IfElse(cond, then, else_) => {
            let then_block = st.f.next_block_id();
            let st1 = st.block_after(st.at);
            let else_block = st1.f.next_block_id();
            let st2 = st1.block_after(then_block);
            let merge_block = if else_ is Some {
                st2.f.next_block_id()
            } else {
                else_block
            };
            let st3 = if else_ is Some {
                st2.block_after(else_block)
            } else {
                st2
            };
            let (st4, cv) = lower_expr(cond, st3, m);
            let st5 = st4.emit(InstKindView::Br(cv, then_block, else_block)).enter(then_block);
            let (st6, kind1) = lower_stmt(*then, st5, m);
            let st7 = joined(st6, kind1, merge_block);
            match else_ {
                Some(stmt) => {
                    let (st8, kind2) = lower_stmt(*stmt, st7.enter(else_block), m);
                    let st9 = joined(st8, kind2, merge_block);
                    if kind1.flow() is Terminator && kind2.flow() is Terminator {
                        (st9.drop_block(merge_block), StmtKind::Terminator)
                    } else {
                        (st9.enter(merge_block), StmtKind::NoTerminator)
                    }
                },
                None => (st7.enter(else_block), StmtKind::NoTerminator),
            }
        },
        Stmt::For(_, cond, _, _) => {
            let cond_block = st.f.next_block_id();
            let st1 = st.block_after(st.at);
            let body_block = st1.f.next_block_id();
            let st2 = st1.block_after(cond_block);
            let inc_block = st2.f.next_block_id();
            let st3 = st2.block_after(body_block);
            let end_block = st3.f.next_block_id();
            let st4 = st3.block_after(inc_block);
            let st5 = Lowering {
                breaks: st4.breaks.push(end_block),
                conts: st4.conts.push(inc_block),
                used: st4.used.push(false),
                ..st4
            };
            let st6 = lower_loop(s, st5, cond_block, body_block, inc_block, end_block, m);
            let st7 = Lowering {
                breaks: st6.breaks.drop_last(),
                conts: st6.conts.drop_last(),
                used: st6.used.drop_last(),
                ..st6
            };
            if cond is None && !st6.used.last() {
                (st7.drop_block(end_block), StmtKind::Terminator)
            } else {
                (st7.enter(end_block), StmtKind::NoTerminator)
            }
        },
        Stmt::Break => (
            Lowering { used: st.used.update(st.used.len() - 1, true), ..st }.emit(
                InstKindView::Jmp(st.breaks.last()),
            ),
            StmtKind::Terminator,
        ),
        Stmt::Cont => (st.emit(InstKindView::Jmp(st.conts.last())), StmtKind::Terminator),
        Stmt::Return(e) => {
            let (st1, v) = lower_expr(e, st, m);
            (st1.emit(InstKindView::Ret(v)), StmtKind::Terminator)
        },
        Stmt::Block(stmts) => lower_block(stmts@, st, m),
        Stmt::Expr(e) => {
            let (st1, v) = lower_expr(e, st, m);
            (st1, StmtKind::Expr(v))
        },
    }
}

/// An expression that may be absent, lowered.
pub open spec fn lower_opt_expr(e: Option<AST>, st: Lowering, m: ModuleView) -> Lowering
    decreases e, 2nat, 0nat,
{
    match e {
        Some(e) => lower_expr(e, st, m).0,
        None => st,
    }
}

/// The parts of the loop `s` lowered into the blocks made for them: the
/// initialiser, then a jump to the block of the condition, which branches to
/// the body or past the loop, or jumps to the body where there is no
/// condition; the body, which jumps to the block of the increment unless it
/// is closed; the increment, which jumps back to the condition.
pub open spec fn lower_loop(
    s: Stmt,
    st: Lowering,
    cond_block: BlockId,
    body_block: BlockId,
    inc_block: BlockId,
    end_block: BlockId,
    m: ModuleView,
) -> Lowering
    decreases s, 0nat, 0nat,
{
    match s {
        Stmt::For(init, cond, inc, body) => {
            let st1 = lower_opt_expr(init, st, m).emit(InstKindView::Jmp(cond_block)).enter(
                cond_block,
            );
            let st2 = match cond {
                Some(e) => {
                    let (st, v) = lower_expr(e, st1, m);
                    st.emit(InstKindView::Br(v, body_block, end_block))
                },
                None => st1.emit(InstKindView::Jmp(body_block)),
            };
            let (st3, kind) = lower_stmt(*body, st2.enter(body_block), m);
            let st4 = joined(st3, kind, inc_block).enter(inc_block);
            lower_opt_expr(inc, st4, m).emit(InstKindView::Jmp(cond_block))
        },
        _ => st,
    }
}

// ----- functions and programs -----

/// Whether the parameters from position `i` on can be bound, each to a
/// stack slot of its own, in a scope that defines `scope` already; and the
/// names that the scope then defines. Names and types are paired up as far
/// as both go.
pub open spec fn check_params(names: Seq<String>, tys: Seq<Type>, i: nat, scope: Set<Seq<char>>) -> Result<
    Set<Seq<char>>,
    ErrorKind,
>
    decreases names.len() - i,
{
    if i >= names.len() || i >= tys.len() {
        Ok(scope)
    } else if scope.contains(names[i as int]@) {
        Err(ErrorKind::ParameterExists)
    } else if scalar_of(tys[i as int]) == Scalar::Other {
        Err(ErrorKind::TypeUnsupported)
    } else {
        check_params(names, tys, i + 1, scope.insert(names[i as int]@))
    }
}

/// The types of the parameters from position `i` on, added to `scope`.
/// Names and types are paired up as far as both go.
pub open spec fn param_types(
    names: Seq<String>,
    tys: Seq<Type>,
    i: nat,
    scope: Map<Seq<char>, Scalar>,
) -> Map<Seq<char>, Scalar>
    decreases names.len() - i,
{
    if i >= names.len() || i >= tys.len() {
        scope
    } else {
        param_types(names, tys, i + 1, scope.insert(names[i as int]@, scalar_of(tys[i as int])))
    }
}

/// Whether a function body is lowered: the parameters are bound, the
/// statements are lowered, and control does not run off the end. The result
/// is the struct tags that are known once the function's own scope is left.
pub open spec fn check_body(
    param_names: Seq<String>,
    param_tys: Seq<Type>,
    ret: Scalar,
    body: Seq<Stmt>,
    tags: Seq<Set<Seq<char>>>,
    sigs: Seq<Signature>,
) -> Result<Seq<Set<Seq<char>>>, ErrorKind> {
    match check_params(param_names, param_tys, 0, Set::empty()) {
        Ok(scope) => match check_stmts(
            body,
            0,
            Env {
                scopes: seq![scope],
                types: seq![param_types(param_names, param_tys, 0, Map::empty())],
                tags: tags.push(Set::empty()),
                loops: Seq::empty(),
            },
            Flow::NoTerminator,
            sigs,
            ret,
        ) {
            Ok((env1, flow)) => if flow is Terminator {
                Ok(env1.tags.drop_last())
            } else {
                Err(ErrorKind::NoTerminator)
            },
            Err(k) => Err(k),
        },
        Err(k) => Err(k),
    }
}

/// What declaring a function does to what is known of the functions, and
/// the position of the function: a new name is added, a known one must have
/// the same type.
pub open spec fn declare_fun(sigs: Seq<Signature>, ret_ty: Type, name: Seq<char>, param_tys: Seq<Type>) -> Result<
    (Seq<Signature>, int),
    ErrorKind,
> {
    match find_signature(sigs, name) {
        Some(i) => if same_type(ret_ty, sigs[i].ret_ty) && same_types(param_tys, sigs[i].param_tys) {
            Ok((sigs, i))
        } else {
            Err(ErrorKind::FunctionTypeDiffers)
        },
        None => Ok(
            (sigs.push(Signature { name, ret_ty, param_tys, defined: false }), sigs.len() as int),
        ),
    }
}

/// Whether the top-level item `t` is lowered, and what is then known of the
/// functions and the struct tags.
pub open spec fn check_toplevel(t: TopLevel, sigs: Seq<Signature>, tags: Seq<Set<Seq<char>>>) -> Result<
    (Seq<Signature>, Seq<Set<Seq<char>>>),
    ErrorKind,
> {
    match t {
        TopLevel::FunDecl(ret_ty, name, param_tys) => match declare_fun(
            sigs,
            ret_ty,
            name@,
            param_tys@,
        ) {
            Ok((sigs1, _)) => Ok((sigs1, tags)),
            Err(k) => Err(k),
        },
        TopLevel::FunDef(ret_ty, name, param_tys, param_names, body) => match declare_fun(
            sigs,
            ret_ty,
            name@,
            param_tys@,
        ) {
            Ok((sigs1, i)) => if sigs1[i].defined {
                Err(ErrorKind::FunctionExists)
            } else {
                match check_body(
                    param_names@,
                    sigs1[i].param_tys,
                    scalar_of(sigs1[i].ret_ty),
                    body@,
                    tags,
                    sigs1,
                ) {
                    Ok(tags1) => Ok(
                        (sigs1.update(i, Signature { defined: true, ..sigs1[i] }), tags1),
                    ),
                    Err(k) => Err(k),
                }
            },
            Err(k) => Err(k),
        },
        TopLevel::VarDef(..) => Err(ErrorKind::GlobalUnsupported),
        TopLevel::StructDef(ty) => match check_struct(ty, tags) {
            Ok(tags1) => Ok((sigs, tags1)),
            Err(k) => Err(k),
        },
    }
}

/// Whether the program `items`, from position `i` on, is lowered, and what
/// is then known of its functions. Lowering stops at the first item that is
/// refused, with the error of that item.
pub open spec fn check_program(
    items: Seq<TopLevel>,
    i: nat,
    sigs: Seq<Signature>,
    tags: Seq<Set<Seq<char>>>,
) -> Result<Seq<Signature>, ErrorKind>
    decreases items.len() - i,
{
    if i >= items.len() {
        Ok(sigs)
    } else {
        match check_toplevel(items[i as int], sigs, tags) {
            Ok((sigs1, tags1)) => check_program(items, i + 1, sigs1, tags1),
            Err(k) => Err(k),
        }
    }
}

/// Where every block of a function is closed, the last instruction of each
/// block of the block order is a branch, a jump or a return, and no other
/// instruction of the block is one.
pub proof fn law_blocks_end_in_terminator(f: FunctionView, j: int)
    requires
        f.all_closed(),
        0 <= j < f.blocks.len(),
    ensures
        ({
            let insts = f.block(f.blocks[j]).insts;
            &&& insts.len() > 0
            &&& f.inst(insts.last()).kind is Br || f.inst(insts.last()).kind is Jmp || f.inst(
                insts.last(),
            ).kind is Ret
            &&& forall|i: int|
                0 <= i < insts.len() - 1 ==> !(f.inst(#[trigger] insts[i]).kind is Br) && !(f.inst(
                    insts[i],
                ).kind is Jmp) && !(f.inst(insts[i]).kind is Ret)
        }),
{
    assert(f.closed(f.blocks[j]));
}

/// The tags that the three arenas of a function stamp on identifiers.
pub struct ArenaTags {
    pub block: u32,
    pub inst: u32,
    pub memory: u32,
}

/// A function without blocks, instructions or stack slots, whose arenas
/// have the tags `tags`.
pub open spec fn blank(name: Seq<char>, ret_ty: Type, param_tys: Seq<Type>, tags: ArenaTags) -> FunctionView {
    FunctionView {
        name,
        ret_ty,
        param_tys,
        blocks: Seq::empty(),
        block_tag: tags.block,
        block_items: Seq::empty(),
        inst_tag: tags.inst,
        inst_items: Seq::empty(),
        memory_tag: tags.memory,
        memory_items: Seq::empty(),
    }
}

/// The tags of the arenas of `f`.
pub open spec fn tags_of(f: FunctionView) -> ArenaTags {
    ArenaTags { block: f.block_tag, inst: f.inst_tag, memory: f.memory_tag }
}

/// The first `count` parameters from position `i` on, each bound to a
/// fresh stack slot.
pub open spec fn lower_params(names: Seq<String>, i: nat, count: nat, st: Lowering) -> Lowering
    decreases count - i,
{
    if i >= count {
        st
    } else {
        lower_params(
            names,
            i + 1,
            count,
            st.slot().bind(names[i as int]@, st.f.next_memory_id()),
        )
    }
}

/// The number of parameters that have both a name and a type.
pub open spec fn param_count(names: Seq<String>, tys: Seq<Type>) -> nat {
    if names.len() < tys.len() {
        names.len()
    } else {
        tys.len()
    }
}

/// What a function body is lowered to, into the empty function `f0`, where
/// it is lowered: an entry block, a stack slot for each parameter in order,
/// then the statements.
pub open spec fn lower_body(
    f0: FunctionView,
    param_names: Seq<String>,
    param_tys: Seq<Type>,
    body: Seq<Stmt>,
    tags: Seq<Set<Seq<char>>>,
    m: ModuleView,
) -> FunctionView {
    let start = Lowering {
        f: f0.with_block_at(0),
        at: f0.next_block_id(),
        vars: seq![Map::empty()],
        tags: tags.push(Set::empty()),
        breaks: Seq::empty(),
        conts: Seq::empty(),
        used: Seq::empty(),
    };
    let entered = lower_params(param_names, 0, param_count(param_names, param_tys), start);
    lower_stmts(body, 0, entered, StmtKind::NoTerminator, m).0.f
}

/// What declaring a function makes of the module: a function with a new
/// name is added, as a function without a body whose arenas have the tags
/// `tags`.
pub open spec fn declared(m: ModuleView, ret_ty: Type, name: Seq<char>, param_tys: Seq<Type>, tags: ArenaTags) -> ModuleView {
    match find_signature(signatures(m), name) {
        Some(_) => m,
        None => ModuleView { functions: m.functions.push(blank(name, ret_ty, param_tys, tags)), ..m },
    }
}

/// What the top-level item `t` makes of the module, where it is lowered. A
/// definition puts, in the place of the function's declaration, the body
/// lowered into an empty function, under the declared name and type.
/// `fresh.0` are the tags of the arenas of a function that is declared by
/// the item, `fresh.1` those of the function that a body is lowered into.
pub open spec fn lower_toplevel(
    t: TopLevel,
    m: ModuleView,
    tags: Seq<Set<Seq<char>>>,
    fresh: (ArenaTags, ArenaTags),
) -> ModuleView {
    match t {
        TopLevel::FunDecl(ret_ty, name, param_tys) => declared(
            m,
            ret_ty,
            name@,
            param_tys@,
            fresh.0,
        ),
        TopLevel::FunDef(ret_ty, name, param_tys, param_names, body) => {
            let m1 = declared(m, ret_ty, name@, param_tys@, fresh.0);
            let i = find_signature(signatures(m1), name@).unwrap();
            let decl = m1.functions[i];
            let f = lower_body(
                blank(Seq::empty(), Type::Int, Seq::empty(), fresh.1),
                param_names@,
                decl.param_tys,
                body@,
                tags,
                m1,
            );
            m1.with_function(
                m1.id_at(i),
                FunctionView { name: decl.name, ret_ty: decl.ret_ty, param_tys: decl.param_tys, ..f },
            )
        },
        _ => m,
    }
}

/// What the program `items`, from position `i` on, makes of the module
/// `m`, where it is lowered. `fresh` gives, for each item by its position,
/// the tags of the arenas that lowering the item makes.
pub open spec fn lower_program(
    items: Seq<TopLevel>,
    i: nat,
    m: ModuleView,
    tags: Seq<Set<Seq<char>>>,
    fresh: spec_fn(int) -> (ArenaTags, ArenaTags),
) -> ModuleView
    decreases items.len() - i,
{
    if i >= items.len() {
        m
    } else {
        match check_toplevel(items[i as int], signatures(m), tags) {
            Ok((_, tags1)) => lower_program(
                items,
                i + 1,
                lower_toplevel(items[i as int], m, tags, fresh(i as int)),
                tags1,
                fresh,
            ),
            Err(_) => m,
        }
    }
}

/// Every function of the module is consistent and linked, and each of its
/// blocks ends in the one instruction that closes it.
pub open spec fn lowered(m: ModuleView) -> bool {
    forall|i: int|
        0 <= i < m.functions.len() ==> (#[trigger] m.functions[i]).wf() && m.functions[i].linked()
            && m.functions[i].all_closed()
}

impl<'a> GenFun<'a> {
    /// Lowers a function body into the empty function of the builder: an
    /// entry block, a stack slot for each parameter, then the statements.
    /// Control must not run off the end.
    fn gen_fun(self, param_tys: &[Type], param_names: &Vec<String>, body: &Vec<Stmt>) -> (r:
        Expected<(Function, Scope<Vec<String>>)>)
        requires
            self.builder.ready(),
            self.fun().blocks.len() == 0,
            self.var_scope@.len() == 0,
            self.var_types@.len() == 0,
            self.tag_scope@.len() > 0,
            self.break_label@.len() == 0,
            self.cont_label@.len() == 0,
            self.break_used@.len() == 0,
        ensures
            match check_body(
                param_names@,
                param_tys@,
                self.ret,
                body@,
                names_of(self.tag_scope@),
                self.sigs(),
            ) {
                Ok(tags) => r is Ok && r.unwrap().0@ == lower_body(
                    self.fun(),
                    param_names@,
                    param_tys@,
                    body@,
                    names_of(self.tag_scope@),
                    self.module@,
                ) && r.unwrap().0@.wf() && r.unwrap().0@.linked() && r.unwrap().0@.all_closed()
                    && r.unwrap().0@.blocks.len() > 0 && names_of(r.unwrap().1@) == tags
                    && r.unwrap().1@.len() == self.tag_scope@.len(),
                Err(k) => r == Err::<(Function, Scope<Vec<String>>), ErrorKind>(k),
            },
    {
        let ghost start = self;
        let mut gen = self;
        let ghost none = Set::<BlockId>::empty();
        // Create entry block
        let bb = gen.builder.append_basic_block();
        gen.builder.position_at_end(bb);
        // Push first scope
        gen.var_scope.push();
        gen.var_types.push();
        gen.tag_scope.push();
        proof {
            reveal(GenFun::base_inv);
            reveal(GenFun::open_inv);
            let g = gen.fun();
            assert(gen.var_types@ =~= seq![Map::<Seq<char>, Scalar>::empty()]);
            assert(g.blocks =~= seq![bb]);
            assert(g.blocks[0] == bb);
            assert(g.block(bb).insts.len() == 0);
            assert(names_of(gen.var_scope@) =~= seq![Set::<Seq<char>>::empty()]);
            assert(names_of(gen.tag_scope@) =~= names_of(start.tag_scope@).push(Set::empty()));
            assert(gen.open_inv(none));
            assert(gen.var_scope@ =~= seq![Map::<Seq<char>, MemoryId>::empty()]);
            assert(gen.break_label@ =~= Seq::<BlockId>::empty());
            assert(gen.cont_label@ =~= Seq::<BlockId>::empty());
            assert(gen.break_used@ =~= Seq::<bool>::empty());
        }
        let ghost begun = gen.state();
        let ghost count = param_count(param_names@, param_tys@);
        assert(begun == (Lowering {
            f: start.fun().with_block_at(0),
            at: start.fun().next_block_id(),
            vars: seq![Map::empty()],
            tags: names_of(start.tag_scope@).push(Set::empty()),
            breaks: Seq::empty(),
            conts: Seq::empty(),
            used: Seq::empty(),
        }));
        // Add function parameters
        let mut i: usize = 0;
        while i < param_names.len() && i < param_tys.len()
            invariant
                i <= param_names@.len(),
                i <= param_tys@.len(),
                gen.open_inv(none),
                gen.fun().blocks.contains(bb),
                gen.module == start.module,
                gen.ret == start.ret,
                gen.var_scope@.len() == 1,
                gen.var_types@.len() == 1,
                param_types(param_names@, param_tys@, 0, Map::empty()) == param_types(
                    param_names@,
                    param_tys@,
                    i as nat,
                    gen.var_types@[0],
                ),
                gen.tag_scope@ == start.tag_scope@.push(Map::empty()),
                gen.break_used@.len() == 0,
                count == param_count(param_names@, param_tys@),
                lower_params(param_names@, 0, count, begun) == lower_params(
                    param_names@,
                    i as nat,
                    count,
                    gen.state(),
                ),
                check_params(param_names@, param_tys@, 0, Set::empty()) == check_params(
                    param_names@,
                    param_tys@,
                    i as nat,
                    names_of(gen.var_scope@)[0],
                ),
            decreases param_names@.len() - i,
        {
            let ghost before = gen;
            if gen.defined_here(param_names[i].as_str(), Ghost(none)) {
                return Err(ErrorKind::ParameterExists);
            }
            let ty = Scalar::of(&param_tys[i]);
            if ty == Scalar::Other {
                return Err(ErrorKind::TypeUnsupported);
            }
            gen.create_entry_block_alloca(ty, param_names[i].clone(), Ghost(none));
            proof {
                assert(gen.var_types@[0] == before.var_types@[0].insert(param_names@[i as int]@, ty));
                assert(gen.var_scope@.len() == names_of(gen.var_scope@).len());
                assert(before.var_scope@.len() == names_of(before.var_scope@).len());
            }
            i += 1;
        }
        // Generate function body
        let ghost entered = gen;
        assert(entered.state() == lower_params(param_names@, 0, count, begun));
        proof {
            assert(entered.env() == (Env {
                scopes: seq![names_of(entered.var_scope@)[0]],
                types: seq![param_types(param_names@, param_tys@, 0, Map::empty())],
                tags: names_of(start.tag_scope@).push(Set::empty()),
                loops: Seq::empty(),
            })) by {
                assert(entered.var_types@ =~= seq![entered.var_types@[0]]);
                assert(names_of(entered.var_scope@) =~= seq![names_of(entered.var_scope@)[0]]);
                assert(names_of(entered.tag_scope@) =~= names_of(start.tag_scope@).push(
                    Set::empty(),
                ));
                assert(entered.break_used@ =~= Seq::<bool>::empty());
            }
        }
        let stmt_kind = gen.gen_stmts(body, Ghost(none))?;
        // Pop first scope
        let ghost done = gen;
        gen.var_scope.pop();
        gen.var_types.pop();
        gen.tag_scope.pop();
        // the body must have closed its last block
        if !stmt_kind.is_terminator() {
            return Err(ErrorKind::NoTerminator);
        }
        proof {
            reveal(GenFun::base_inv);
            reveal(GenFun::closed_inv);
            assert(names_of(gen.tag_scope@) =~= names_of(done.tag_scope@).drop_last());
            assert(entered.fun().blocks.contains(bb));
            assert(done.fun().blocks.contains(bb));
        }
        Ok((gen.builder.retrieve_function(), gen.tag_scope))
    }
}

/// A function that differs from a lowered one in its name and type alone is
/// lowered as well.
pub proof fn lemma_signature_apart(f: FunctionView, g: FunctionView)
    requires
        f.wf(),
        f.linked(),
        f.all_closed(),
        g == (FunctionView { name: g.name, ret_ty: g.ret_ty, param_tys: g.param_tys, ..f }),
    ensures
        g.wf(),
        g.linked(),
        g.all_closed(),
{
    f.lemma_same_but_blocks(g);
    assert forall|b: BlockId| g.has_block(b) <==> f.has_block(b) by {}
    assert forall|b: BlockId| g.block(b) == f.block(b) by {}
    assert forall|x: InstId| g.has_inst(x) <==> f.has_inst(x) by {}
    assert forall|x: InstId| g.inst(x) == f.inst(x) by {}
    assert forall|i: int| 0 <= i < g.blocks.len() implies g.has_block(#[trigger] g.blocks[i])
        && g.closed(g.blocks[i]) by {
        assert(f.has_block(f.blocks[i]));
        assert(f.closed(f.blocks[i]));
    }
    assert forall|b: BlockId, i: int|
        g.has_block(b) && 0 <= i < g.block(b).insts.len() implies g.has_inst(
        #[trigger] g.block(b).insts[i],
    ) by {
        assert(f.has_inst(f.block(b).insts[i]));
    }
    assert forall|b1: BlockId, i1: int, b2: BlockId, i2: int|
        #![trigger g.block(b1).insts[i1], g.block(b2).insts[i2]]
        g.has_block(b1) && 0 <= i1 < g.block(b1).insts.len() && g.has_block(b2) && 0 <= i2
            < g.block(b2).insts.len() && g.block(b1).insts[i1] == g.block(b2).insts[i2]
            implies b1 == b2 && i1 == i2 by {
        assert(f.block(b1).insts[i1] == f.block(b2).insts[i2]);
    }
    assert forall|x: InstId| g.has_inst(x) implies (#[trigger] g.inst(x)).id == x by {
        assert(f.inst(x).id == x);
    }
}

/// Lowers a program into a module of the intermediate representation.
pub struct IRGen {
    module: Module,
    tag_scope: Scope<Vec<String>>,
}

impl IRGen {
    /// The module as far as it is built.
    pub closed spec fn module(&self) -> ModuleView {
        self.module@
    }

    /// The struct tags that are known, by scope.
    pub closed spec fn tags(&self) -> Seq<Set<Seq<char>>> {
        names_of(self.tag_scope@)
    }

    /// The member names that each known struct tag stands for, by scope.
    pub closed spec fn members(&self) -> Seq<Map<Seq<char>, Seq<Seq<char>>>> {
        members_of(self.tag_scope@)
    }

    /// The module is lowered so far, and the outer tag scope is open.
    pub open spec fn wf(&self) -> bool {
        lowered(self.module()) && self.tags().len() > 0
    }

    /// A generator for a module called `name`, without functions or tags.
    pub fn new(name: String) -> (g: IRGen)
        ensures
            g.wf(),
            g.module().name == name@,
            g.module().functions.len() == 0,
            g.tags() == seq![Set::<Seq<char>>::empty()],
    {
        let mut tag_scope: Scope<Vec<String>> = Scope::new();
        tag_scope.push();
        let g = IRGen { module: Module::new(name), tag_scope };
        assert(g.tags() =~= seq![Set::<Seq<char>>::empty()]);
        g
    }

    /// Lowers the items of a program in order, and gives the module back.
    /// The program is lowered exactly where `check_program` accepts it. Then
    /// the module is what `lower_program` says, whatever tags its new arenas
    /// got: it has the functions that `check_program` gives, each consistent and
    /// linked, and every block of each ends in the one instruction that
    /// closes it. Else the error is that of the first item refused.
    pub fn irgen(self, funs: Vec<TopLevel>) -> (r: Expected<Module>)
        requires
            self.wf(),
        ensures
            match check_program(funs@, 0, signatures(self.module()), self.tags()) {
                Ok(sigs) => r is Ok && signatures(r.unwrap()@) == sigs && lowered(r.unwrap()@)
                    && exists|fresh: spec_fn(int) -> (ArenaTags, ArenaTags)|
                    r.unwrap()@ == lower_program(funs@, 0, self.module(), self.tags(), fresh),
                Err(k) => r == Err::<Module, ErrorKind>(k),
            },
    {
        let mut generator = self;
        let mut rest = funs;
        let mut i: usize = 0;
        let ghost mut seen: Map<int, (ArenaTags, ArenaTags)> = Map::empty();
        while i < rest.len()
            invariant
                i <= rest@.len(),
                rest@.len() == funs@.len(),
                forall|j: int| i <= j < rest@.len() ==> rest@[j] == funs@[j],
                generator.wf(),
                check_program(funs@, 0, signatures(self.module()), self.tags()) == check_program(
                    funs@,
                    i as nat,
                    signatures(generator.module()),
                    generator.tags(),
                ),
                forall|fresh: spec_fn(int) -> (ArenaTags, ArenaTags)|
                    (forall|j: int| 0 <= j < i ==> fresh(j) == seen[j]) ==> #[trigger] lower_program(
                        funs@,
                        0,
                        self.module(),
                        self.tags(),
                        fresh,
                    ) == lower_program(
                        funs@,
                        i as nat,
                        generator.module(),
                        generator.tags(),
                        fresh,
                    ),
            decreases rest@.len() - i,
        {
            let mut item = TopLevel::StructDef(Type::Int);
            core::mem::swap(&mut rest[i], &mut item);
            assert(item == funs@[i as int]);
            let ghost sigs = signatures(generator.module());
            let ghost tags = generator.tags();
            let ghost before = generator.module();
            assert(check_program(funs@, i as nat, sigs, tags) == match check_toplevel(
                funs@[i as int],
                sigs,
                tags,
            ) {
                Ok((sigs1, tags1)) => check_program(funs@, (i + 1) as nat, sigs1, tags1),
                Err(k) => Err(k),
            });
            let (r, Ghost(used)) = generator.gen_toplevel(item);
            match r {
                Ok(()) => {},
                Err(k) => {
                    return Err(k);
                },
            }
            proof {
                let earlier = seen;
                seen = seen.insert(i as int, used);
                assert forall|fresh: spec_fn(int) -> (ArenaTags, ArenaTags)|
                    (forall|j: int| 0 <= j < i + 1 ==> fresh(j) == seen[j]) implies #[trigger] lower_program(
                    funs@,
                    0,
                    self.module(),
                    self.tags(),
                    fresh,
                ) == lower_program(
                    funs@,
                    (i + 1) as nat,
                    generator.module(),
                    generator.tags(),
                    fresh,
                ) by {
                    assert forall|j: int| 0 <= j < i implies fresh(j) == earlier[j] by {
                        assert(fresh(j) == seen[j]);
                    }
                    assert(seen[i as int] == used);
                    assert(fresh(i as int) == seen[i as int]);
                    assert(lower_program(funs@, i as nat, before, tags, fresh) == lower_program(
                        funs@,
                        (i + 1) as nat,
                        lower_toplevel(funs@[i as int], before, tags, fresh(i as int)),
                        generator.tags(),
                        fresh,
                    ));
                }
            }
            i += 1;
        }
        proof {
            let fresh = |j: int| seen[j];
            assert(lower_program(funs@, 0, self.module(), self.tags(), fresh) == lower_program(
                funs@,
                i as nat,
                generator.module(),
                generator.tags(),
                fresh,
            ));
        }
        Ok(generator.module)
    }

    fn gen_toplevel(&mut self, fun: TopLevel) -> (r: (Expected<()>, Ghost<(ArenaTags, ArenaTags)>))
        requires
            old(self).wf(),
        ensures
            match check_toplevel(fun, signatures(old(self).module()), old(self).tags()) {
                Ok((sigs, tags)) => r.0 is Ok && final(self).wf() && signatures(
                    final(self).module(),
                ) == sigs && final(self).tags() == tags && final(self).module() == lower_toplevel(
                    fun,
                    old(self).module(),
                    old(self).tags(),
                    r.1@,
                ),
                Err(k) => r.0 == Err::<(), ErrorKind>(k),
            },
    {
        let ghost no_tags = ArenaTags { block: 0, inst: 0, memory: 0 };
        match fun {
            TopLevel::FunDecl(ret_ty, name, param_tys) => {
                let (r, Ghost(tags)) = self.gen_fun_decl(ret_ty, name, param_tys);
                match r {
                    Ok(_) => (Ok(()), Ghost((tags, no_tags))),
                    Err(k) => (Err(k), Ghost((tags, no_tags))),
                }
            },
            TopLevel::FunDef(ret_ty, name, param_tys, param_names, body) => {
                // a definition must agree with an earlier declaration
                let ghost key = name@;
                let ghost start_tags = self.tags();
                let (r, Ghost(tags)) = self.gen_fun_decl(ret_ty, name, param_tys);
                let fun_id = match r {
                    Ok(id) => id,
                    Err(k) => {
                        return (Err(k), Ghost((tags, no_tags)));
                    },
                };
                let ghost declared = self.module@;
                if !self.module.get_function(fun_id).is_declaration() {
                    return (Err(ErrorKind::FunctionExists), Ghost((tags, no_tags)));
                }
                let mut tag_scope: Scope<Vec<String>> = Scope::new();
                core::mem::swap(&mut self.tag_scope, &mut tag_scope);
                let decl = self.module.get_function(fun_id);
                let empty = Function::new(String::new(), Type::Int, Vec::new());
                let ghost tags2 = tags_of(empty@);
                proof {
                    let f = empty@;
                    assert(f.blocks =~= Seq::<BlockId>::empty());
                    assert(f.block_items =~= Seq::empty());
                    assert(f.inst_items =~= Seq::empty());
                    assert(f.memory_items =~= Seq::empty());
                    assert(f.name =~= Seq::<char>::empty());
                    assert(f.param_tys =~= Seq::<Type>::empty());
                    assert(f == blank(Seq::empty(), Type::Int, Seq::empty(), tags2));
                }
                let gen = GenFun {
                    module: &self.module,
                    ret: Scalar::of(decl.ret_ty()),
                    builder: Builder::new(empty),
                    var_scope: Scope::new(),
                    var_types: Scope::new(),
                    tag_scope,
                    break_label: Vec::new(),
                    cont_label: Vec::new(),
                    break_used: Vec::new(),
                };
                proof {
                    let f = gen.fun();
                    assert(f.linked()) by {
                        assert forall|b: BlockId| !f.has_block(b) by {}
                    }
                }
                let ghost into = gen.fun();
                let (new_fun, tag_scope) = match gen.gen_fun(decl.param_tys(), &param_names, &body) {
                    Ok(r) => r,
                    Err(k) => {
                        return (Err(k), Ghost((tags, tags2)));
                    },
                };
                let ghost body_fun = new_fun@;
                proof {
                    let i = fun_id.index as int;
                    assert(find_signature(signatures(declared), key) == Some(i));
                    assert(body_fun == lower_body(
                        blank(Seq::empty(), Type::Int, Seq::empty(), tags2),
                        param_names@,
                        declared.functions[i].param_tys,
                        body@,
                        start_tags,
                        declared,
                    ));
                }
                self.tag_scope = tag_scope;
                let mut declaration = Function::new(String::new(), Type::Int, Vec::new());
                core::mem::swap(self.module.get_function_mut(fun_id), &mut declaration);
                let (name, ret_ty, param_tys) = declaration.into_signature();
                let ghost lowered_fun = new_fun@;
                let new_fun = new_fun.with_signature(name, ret_ty, param_tys);
                proof {
                    lemma_signature_apart(lowered_fun, new_fun@);
                }
                self.module.replace_function(fun_id, new_fun);
                proof {
                    let now = self.module@;
                    let i = fun_id.index as int;
                    assert(now.functions =~= declared.functions.update(i, new_fun@));
                    assert(signatures(now) =~= signatures(declared).update(
                        i,
                        Signature { defined: true, ..signatures(declared)[i] },
                    ));
                    assert forall|j: int| 0 <= j < now.functions.len() implies (
                    #[trigger] now.functions[j]).wf() && now.functions[j].linked()
                        && now.functions[j].all_closed() by {
                        if j != i {
                            assert(now.functions[j] == declared.functions[j]);
                        }
                    }
                    assert(fun_id == declared.id_at(i));
                    assert(now == declared.with_function(declared.id_at(i), new_fun@));
                    assert(new_fun@ == (FunctionView {
                        name: declared.functions[i].name,
                        ret_ty: declared.functions[i].ret_ty,
                        param_tys: declared.functions[i].param_tys,
                        ..body_fun
                    }));
                }
                (Ok(()), Ghost((tags, tags2)))
            },
            TopLevel::VarDef(..) => (Err(ErrorKind::GlobalUnsupported), Ghost((no_tags, no_tags))),
            TopLevel::StructDef(ty) => (self.gen_struct(&ty), Ghost((no_tags, no_tags))),
        }
    }

    /// Installs or looks up a struct tag in the outer scope.
    fn gen_struct(&mut self, ty: &Type) -> (r: Expected<()>)
        requires
            old(self).wf(),
        ensures
            final(self).module == old(self).module,
            final(self).members() == if r is Ok {
                with_members(*ty, old(self).members())
            } else {
                old(self).members()
            },
            match check_struct(*ty, old(self).tags()) {
                Err(k) => r == Err::<(), ErrorKind>(k),
                Ok(tags) => r is Ok && final(self).tags() == tags && final(self).wf(),
            },
    {
        match ty {
            Type::Struct(Some(name), Some(body)) => {
                proof {
                    lemma_lookup_visible(self.tag_scope@, name@);
                }
                if self.tag_scope.get_all(name.as_str()).is_some() {
                    return Err(ErrorKind::StructExists);
                }
                let mut members: Vec<String> = Vec::new();
                let mut i: usize = 0;
                while i < body.1.len()
                    invariant
                        i <= body.1@.len(),
                        members@.len() == i,
                        forall|j: int| 0 <= j < i ==> (#[trigger] members@[j])@ == body.1@[j]@,
                    decreases body.1@.len() - i,
                {
                    members.push(body.1[i].clone());
                    i += 1;
                }
                assert(names_view(members@) =~= names_view(body.1@));
                let ghost key = name@;
                let _ = self.tag_scope.insert(name.clone(), members);
                proof {
                    let a = names_of(self.tag_scope@);
                    let b = declare(names_of(old(self).tag_scope@), key);
                    assert(a.len() == b.len());
                    assert forall|i: int| 0 <= i < a.len() implies a[i] =~= b[i] by {}
                    assert(a =~= b);
                    let c = members_of(self.tag_scope@);
                    let d = with_members(*ty, members_of(old(self).tag_scope@));
                    assert(c.len() == d.len());
                    assert forall|i: int| 0 <= i < c.len() implies c[i] =~= d[i] by {}
                    assert(c =~= d);
                }
                Ok(())
            },
            Type::Struct(None, Some(_)) => Ok(()),
            Type::Struct(Some(name), None) => {
                proof {
                    lemma_lookup_visible(self.tag_scope@, name@);
                }
                if self.tag_scope.get_all(name.as_str()).is_some() {
                    Ok(())
                } else {
                    Err(ErrorKind::StructMissing)
                }
            },
            Type::Struct(None, None) => Err(ErrorKind::StructUnnamed),
            _ => Ok(()),
        }
    }

    /// Declares a function, or checks a declaration against the one that
    /// the module has, and returns the function's identifier, with the tags
    /// of the arenas of a function that was made for it.
    fn gen_fun_decl(&mut self, ret_ty: Type, name: String, param_tys: Vec<Type>) -> (r: (
        Expected<FunctionId>,
        Ghost<ArenaTags>,
    ))
        requires
            old(self).wf(),
        ensures
            final(self).tag_scope == old(self).tag_scope,
            match declare_fun(signatures(old(self).module()), ret_ty, name@, param_tys@) {
                Ok((sigs, i)) => r.0 is Ok && r.0.unwrap().index == i && final(self).module().has_function(r.0.unwrap()) && signatures(final(self).module()) == sigs
                    && final(self).wf() && final(self).module() == declared(
                    old(self).module(),
                    ret_ty,
                    name@,
                    param_tys@,
                    r.1@,
                ) && find_signature(signatures(final(self).module()), name@) == Some(i),
                Err(k) => r.0 == Err::<FunctionId, ErrorKind>(k),
            },
    {
        let ghost sigs = signatures(self.module@);
        match self.module.get_function_by_name(name.as_str()) {
            Some(fun_id) => {
                proof {
                    assert(sigs[fun_id.index as int].name == name@);
                    lemma_first_named(sigs, name@, 0, fun_id.index as int);
                }
                let previous = self.module.get_function(fun_id);
                let ghost tags = tags_of(previous@);
                if ret_ty.same(previous.ret_ty()) && Type::same_all(
                    param_tys.as_slice(),
                    previous.param_tys(),
                ) {
                    (Ok(fun_id), Ghost(tags))
                } else {
                    (Err(ErrorKind::FunctionTypeDiffers), Ghost(tags))
                }
            },
            None => {
                let ghost sig = Signature {
                    name: name@,
                    ret_ty,
                    param_tys: param_tys@,
                    defined: false,
                };
                let fun = Function::new(name, ret_ty, param_tys);
                let ghost tags = tags_of(fun@);
                proof {
                    let f = fun@;
                    assert(f.linked()) by {
                        assert forall|b: BlockId| !f.has_block(b) by {}
                    }
                    assert(f.all_closed());
                    assert(f.blocks =~= Seq::<BlockId>::empty());
                    assert(f.block_items =~= Seq::empty());
                    assert(f.inst_items =~= Seq::empty());
                    assert(f.memory_items =~= Seq::empty());
                    assert(f == blank(sig.name, sig.ret_ty, sig.param_tys, tags));
                }
                let fun_id = self.module.add_function(fun);
                proof {
                    let more = sigs.push(sig);
                    assert(signatures(self.module@) =~= more);
                    assert(more[sigs.len() as int].name == sig.name);
                    assert forall|j: int| 0 <= j < sigs.len() implies more[j].name != sig.name by {
                        assert(more[j] == sigs[j]);
                    }
                    lemma_first_named(more, sig.name, 0, sigs.len() as int);
                }
                (Ok(fun_id), Ghost(tags))
            },
        }
    }
}

} // verus!
