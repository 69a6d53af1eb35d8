//! The syntax tree, and the parser that builds it from tokens.

use crate::common::{ErrorKind, Expected};
use crate::text::str_eq;
use crate::tokenize::{Lexeme, Token, TokenView, Tokenizer};
use crate::ty::{Type, TypeView};
use vstd::prelude::*;

verus! {

/// An item at the top level of a program.
#[derive(Debug)]
pub enum TopLevel {
    /// A function declaration: return type, name, parameter types.
    FunDecl(Type, String, Vec<Type>),
    /// A function definition: return type, name, parameter types, parameter
    /// names, body.
    FunDef(Type, String, Vec<Type>, Vec<String>, Vec<Stmt>),
    /// A global variable: type, name, initialiser.
    VarDef(Type, String, Option<AST>),
    /// A struct definition.
    StructDef(Type),
}

/// A statement.
#[derive(Debug)]
pub enum Stmt {
    VarDef(Vec<(Type, String, Option<AST>)>),
    StructDef(Type),
    IfElse(AST, Box<Stmt>, Option<Box<Stmt>>),
    For(Option<AST>, Option<AST>, Option<AST>, Box<Stmt>),
    Break,
    Cont,
    Return(AST),
    Block(Vec<Stmt>),
    Expr(AST),
}

/// An expression.
#[derive(Debug)]
pub enum AST {
    Ternary(Box<AST>, Box<AST>, Box<AST>),
    Assign(Box<AST>, Box<AST>),
    Eq(Box<AST>, Box<AST>),
    Ne(Box<AST>, Box<AST>),
    Lt(Box<AST>, Box<AST>),
    Le(Box<AST>, Box<AST>),
    Add(Box<AST>, Box<AST>),
    Sub(Box<AST>, Box<AST>),
    Mul(Box<AST>, Box<AST>),
    Div(Box<AST>, Box<AST>),
    // unary
    Addr(Box<AST>),
    Deref(Box<AST>),
    Cast(Type, Box<AST>),
    // postfix
    Dot(Box<AST>, String),
    // primary
    /// A statement expression: its value is that of its last statement, which
    /// must be an expression statement.
    Block(Vec<Stmt>),
    Call(String, Vec<AST>),
    Ident(String),
    Num(u64),
    Str(String),
}

// ----- what the tree is, to a contract -----

/// What an expression is, to a contract.
pub enum AstView {
    Ternary(Box<AstView>, Box<AstView>, Box<AstView>),
    Assign(Box<AstView>, Box<AstView>),
    Eq(Box<AstView>, Box<AstView>),
    Ne(Box<AstView>, Box<AstView>),
    Lt(Box<AstView>, Box<AstView>),
    Le(Box<AstView>, Box<AstView>),
    Add(Box<AstView>, Box<AstView>),
    Sub(Box<AstView>, Box<AstView>),
    Mul(Box<AstView>, Box<AstView>),
    Div(Box<AstView>, Box<AstView>),
    Addr(Box<AstView>),
    Deref(Box<AstView>),
    Cast(TypeView, Box<AstView>),
    Dot(Box<AstView>, Seq<char>),
    Block(Seq<StmtView>),
    Call(Seq<char>, Seq<AstView>),
    Ident(Seq<char>),
    Num(u64),
    Str(Seq<char>),
}

/// What a variable definition is, to a contract: type, name, initialiser.
pub struct DeclView {
    pub ty: TypeView,
    pub name: Seq<char>,
    pub init: Option<AstView>,
}

/// What a statement is, to a contract.
pub enum StmtView {
    VarDef(Seq<DeclView>),
    StructDef(TypeView),
    IfElse(AstView, Box<StmtView>, Option<Box<StmtView>>),
    For(Option<AstView>, Option<AstView>, Option<AstView>, Box<StmtView>),
    Break,
    Cont,
    Return(AstView),
    Block(Seq<StmtView>),
    Expr(AstView),
}

/// What a top-level item is, to a contract.
pub enum TopLevelView {
    FunDecl(TypeView, Seq<char>, Seq<TypeView>),
    FunDef(TypeView, Seq<char>, Seq<TypeView>, Seq<Seq<char>>, Seq<StmtView>),
    VarDef(TypeView, Seq<char>, Option<AstView>),
    StructDef(TypeView),
}

/// What an expression is, to a contract.
pub open spec fn ast_view(e: AST) -> AstView
    decreases e,
{
    match e {
        AST::Ternary(a, b, c) => AstView::Ternary(
            Box::new(ast_view(*a)),
            Box::new(ast_view(*b)),
            Box::new(ast_view(*c)),
        ),
        AST::Assign(a, b) => AstView::Assign(Box::new(ast_view(*a)), Box::new(ast_view(*b))),
        AST::Eq(a, b) => AstView::Eq(Box::new(ast_view(*a)), Box::new(ast_view(*b))),
        AST::Ne(a, b) => AstView::Ne(Box::new(ast_view(*a)), Box::new(ast_view(*b))),
        AST::Lt(a, b) => AstView::Lt(Box::new(ast_view(*a)), Box::new(ast_view(*b))),
        AST::Le(a, b) => AstView::Le(Box::new(ast_view(*a)), Box::new(ast_view(*b))),
        AST::Add(a, b) => AstView::Add(Box::new(ast_view(*a)), Box::new(ast_view(*b))),
        AST::Sub(a, b) => AstView::Sub(Box::new(ast_view(*a)), Box::new(ast_view(*b))),
        AST::Mul(a, b) => AstView::Mul(Box::new(ast_view(*a)), Box::new(ast_view(*b))),
        AST::Div(a, b) => AstView::Div(Box::new(ast_view(*a)), Box::new(ast_view(*b))),
        AST::Addr(a) => AstView::Addr(Box::new(ast_view(*a))),
        AST::Deref(a) => AstView::Deref(Box::new(ast_view(*a))),
        AST::Cast(ty, a) => AstView::Cast(ty@, Box::new(ast_view(*a))),
        AST::Dot(a, name) => AstView::Dot(Box::new(ast_view(*a)), name@),
        AST::Block(stmts) => AstView::Block(
            Seq::new(
                stmts@.len(),
                |i: int|
                    if 0 <= i < stmts@.len() {
                        stmt_view(stmts@[i])
                    } else {
                        StmtView::Break
                    },
            ),
        ),
        AST::Call(name, args) => AstView::Call(
            name@,
            Seq::new(
                args@.len(),
                |i: int|
                    if 0 <= i < args@.len() {
                        ast_view(args@[i])
                    } else {
                        AstView::Num(0)
                    },
            ),
        ),
        AST::Ident(name) => AstView::Ident(name@),
        AST::Num(n) => AstView::Num(n),
        AST::Str(text) => AstView::Str(text@),
    }
}

/// What a variable definition is, to a contract.
pub open spec fn decl_view(d: (Type, String, Option<AST>)) -> DeclView
    decreases d,
{
    DeclView {
        ty: d.0@,
        name: d.1@,
        init: match d.2 {
            Some(e) => Some(ast_view(e)),
            None => None,
        },
    }
}

/// What a statement is, to a contract.
pub open spec fn stmt_view(s: Stmt) -> StmtView
    decreases s,
{
    match s {
        Stmt::VarDef(defs) => StmtView::VarDef(
            Seq::new(
                defs@.len(),
                |i: int|
                    if 0 <= i < defs@.len() {
                        decl_view(defs@[i])
                    } else {
                        DeclView { ty: TypeView::Int, name: Seq::empty(), init: None }
                    },
            ),
        ),
        Stmt::StructDef(ty) => StmtView::StructDef(ty@),
        Stmt::IfElse(cond, then, else_) => StmtView::IfElse(
            ast_view(cond),
            Box::new(stmt_view(*then)),
            match else_ {
                Some(s) => Some(Box::new(stmt_view(*s))),
                None => None,
            },
        ),
        Stmt::For(init, cond, inc, body) => StmtView::For(
            opt_view(init),
            opt_view(cond),
            opt_view(inc),
            Box::new(stmt_view(*body)),
        ),
        Stmt::Break => StmtView::Break,
        Stmt::Cont => StmtView::Cont,
        Stmt::Return(e) => StmtView::Return(ast_view(e)),
        Stmt::Block(stmts) => StmtView::Block(
            Seq::new(
                stmts@.len(),
                |i: int|
                    if 0 <= i < stmts@.len() {
                        stmt_view(stmts@[i])
                    } else {
                        StmtView::Break
                    },
            ),
        ),
        Stmt::Expr(e) => StmtView::Expr(ast_view(e)),
    }
}

/// What an expression that may be absent is, to a contract.
pub open spec fn opt_view(e: Option<AST>) -> Option<AstView>
    decreases e,
{
    match e {
        Some(e) => Some(ast_view(e)),
        None => None,
    }
}

/// What a list of statements is, to a contract.
pub open spec fn stmts_view(stmts: Seq<Stmt>) -> Seq<StmtView> {
    Seq::new(stmts.len(), |i: int| stmt_view(stmts[i]))
}

/// What a list of expressions is, to a contract.
pub open spec fn asts_view(exprs: Seq<AST>) -> Seq<AstView> {
    Seq::new(exprs.len(), |i: int| ast_view(exprs[i]))
}

/// What a list of variable definitions is, to a contract.
pub open spec fn decls_view(defs: Seq<(Type, String, Option<AST>)>) -> Seq<DeclView> {
    Seq::new(defs.len(), |i: int| decl_view(defs[i]))
}

/// What a list of types is, to a contract.
pub open spec fn types_view(tys: Seq<Type>) -> Seq<TypeView> {
    Seq::new(tys.len(), |i: int| tys[i]@)
}

/// What a list of names is, to a contract.
pub open spec fn names_view(names: Seq<String>) -> Seq<Seq<char>> {
    Seq::new(names.len(), |i: int| names[i]@)
}

/// What a declarator is, to a contract: a type and a name.
pub open spec fn named_view(d: (Type, String)) -> (TypeView, Seq<char>) {
    (d.0@, d.1@)
}

/// What a list of declarators is, to a contract.
pub open spec fn nameds_view(ds: Seq<(Type, String)>) -> Seq<(TypeView, Seq<char>)> {
    Seq::new(ds.len(), |i: int| named_view(ds[i]))
}

/// What a top-level item is, to a contract.
pub open spec fn toplevel_view(t: TopLevel) -> TopLevelView {
    match t {
        TopLevel::FunDecl(ret, name, params) => TopLevelView::FunDecl(
            ret@,
            name@,
            types_view(params@),
        ),
        TopLevel::FunDef(ret, name, params, names, body) => TopLevelView::FunDef(
            ret@,
            name@,
            types_view(params@),
            names_view(names@),
            stmts_view(body@),
        ),
        TopLevel::VarDef(ty, name, init) => TopLevelView::VarDef(ty@, name@, opt_view(init)),
        TopLevel::StructDef(ty) => TopLevelView::StructDef(ty@),
    }
}

/// What a list of top-level items is, to a contract.
pub open spec fn toplevels_view(items: Seq<TopLevel>) -> Seq<TopLevelView> {
    Seq::new(items.len(), |i: int| toplevel_view(items[i]))
}

impl View for AST {
    type V = AstView;

    open spec fn view(&self) -> AstView {
        ast_view(*self)
    }
}

impl View for Stmt {
    type V = StmtView;

    open spec fn view(&self) -> StmtView {
        stmt_view(*self)
    }
}

impl View for TopLevel {
    type V = TopLevelView;

    open spec fn view(&self) -> TopLevelView {
        toplevel_view(*self)
    }
}

/// An expression that is a block of statements shows the views of its
/// statements.
pub proof fn lemma_ast_block_view(stmts: Vec<Stmt>)
    ensures
        ast_view(AST::Block(stmts)) == AstView::Block(stmts_view(stmts@)),
{
    assert(ast_view(AST::Block(stmts))->Block_0 =~= stmts_view(stmts@));
}

/// A statement that is a block of statements shows the views of its
/// statements.
pub proof fn lemma_stmt_block_view(stmts: Vec<Stmt>)
    ensures
        stmt_view(Stmt::Block(stmts)) == StmtView::Block(stmts_view(stmts@)),
{
    assert(stmt_view(Stmt::Block(stmts))->Block_0 =~= stmts_view(stmts@));
}

/// A call shows the views of its arguments.
pub proof fn lemma_call_view(name: String, exprs: Vec<AST>)
    ensures
        ast_view(AST::Call(name, exprs)) == AstView::Call(name@, asts_view(exprs@)),
{
    assert(ast_view(AST::Call(name, exprs))->Call_1 =~= asts_view(exprs@));
}

/// A statement that defines variables shows the views of its definitions.
pub proof fn lemma_var_def_view(defs: Vec<(Type, String, Option<AST>)>)
    ensures
        stmt_view(Stmt::VarDef(defs)) == StmtView::VarDef(decls_view(defs@)),
{
    assert(stmt_view(Stmt::VarDef(defs))->VarDef_0 =~= decls_view(defs@));
}

// ----- copies -----

impl AST {
    /// A copy of the expression.
    pub fn duplicate(&self) -> (r: AST)
        ensures
            r@ == self@,
        decreases *self,
    {
        match self {
            AST::Ternary(a, b, c) => AST::Ternary(
                Box::new(a.duplicate()),
                Box::new(b.duplicate()),
                Box::new(c.duplicate()),
            ),
            AST::Assign(a, b) => AST::Assign(Box::new(a.duplicate()), Box::new(b.duplicate())),
            AST::Eq(a, b) => AST::Eq(Box::new(a.duplicate()), Box::new(b.duplicate())),
            AST::Ne(a, b) => AST::Ne(Box::new(a.duplicate()), Box::new(b.duplicate())),
            AST::Lt(a, b) => AST::Lt(Box::new(a.duplicate()), Box::new(b.duplicate())),
            AST::Le(a, b) => AST::Le(Box::new(a.duplicate()), Box::new(b.duplicate())),
            AST::Add(a, b) => AST::Add(Box::new(a.duplicate()), Box::new(b.duplicate())),
            AST::Sub(a, b) => AST::Sub(Box::new(a.duplicate()), Box::new(b.duplicate())),
            AST::Mul(a, b) => AST::Mul(Box::new(a.duplicate()), Box::new(b.duplicate())),
            AST::Div(a, b) => AST::Div(Box::new(a.duplicate()), Box::new(b.duplicate())),
            AST::Addr(a) => AST::Addr(Box::new(a.duplicate())),
            AST::Deref(a) => AST::Deref(Box::new(a.duplicate())),
            AST::Cast(ty, a) => AST::Cast(ty.duplicate(), Box::new(a.duplicate())),
            AST::Dot(a, name) => AST::Dot(Box::new(a.duplicate()), name.clone()),
            AST::Block(stmts) => {
                let r = AST::Block(Stmt::duplicate_all(stmts));
                proof {
                    assert(r@->Block_0 =~= self@->Block_0);
                }
                r
            },
            AST::Call(name, args) => {
                let r = AST::Call(name.clone(), Self::duplicate_all(args));
                proof {
                    assert(r@->Call_1 =~= self@->Call_1);
                }
                r
            },
            AST::Ident(name) => AST::Ident(name.clone()),
            AST::Num(n) => AST::Num(*n),
            AST::Str(text) => AST::Str(text.clone()),
        }
    }

    /// A copy of a list of expressions.
    pub fn duplicate_all(exprs: &Vec<AST>) -> (r: Vec<AST>)
        ensures
            r@.len() == exprs@.len(),
            forall|i: int| 0 <= i < exprs@.len() ==> (#[trigger] r@[i])@ == exprs@[i]@,
        decreases *exprs,
    {
        let mut copies: Vec<AST> = Vec::new();
        let mut i: usize = 0;
        while i < exprs.len()
            invariant
                i <= exprs@.len(),
                copies@.len() == i,
                forall|j: int| 0 <= j < i ==> (#[trigger] copies@[j])@ == exprs@[j]@,
            decreases exprs@.len() - i,
        {
            copies.push(exprs[i].duplicate());
            i += 1;
        }
        copies
    }
}

/// A copy of an expression that may be absent.
pub fn duplicate_opt(e: &Option<AST>) -> (r: Option<AST>)
    ensures
        opt_view(r) == opt_view(*e),
    decreases *e,
{
    match e {
        Some(e) => Some(e.duplicate()),
        None => None,
    }
}

/// A copy of a list of variable definitions.
pub fn duplicate_defs(defs: &Vec<(Type, String, Option<AST>)>) -> (r: Vec<
    (Type, String, Option<AST>),
>)
    ensures
        r@.len() == defs@.len(),
        forall|i: int| 0 <= i < defs@.len() ==> decl_view(#[trigger] r@[i]) == decl_view(defs@[i]),
    decreases *defs,
{
    let mut copies: Vec<(Type, String, Option<AST>)> = Vec::new();
    let mut i: usize = 0;
    while i < defs.len()
        invariant
            i <= defs@.len(),
            copies@.len() == i,
            forall|j: int| 0 <= j < i ==> decl_view(#[trigger] copies@[j]) == decl_view(defs@[j]),
        decreases defs@.len() - i,
    {
        let def = &defs[i];
        copies.push((def.0.duplicate(), def.1.clone(), duplicate_opt(&def.2)));
        i += 1;
    }
    copies
}

impl Stmt {
    /// A copy of the statement.
    pub fn duplicate(&self) -> (r: Stmt)
        ensures
            r@ == self@,
        decreases *self,
    {
        match self {
            Stmt::VarDef(defs) => {
                let r = Stmt::VarDef(duplicate_defs(defs));
                proof {
                    assert(r@->VarDef_0 =~= self@->VarDef_0);
                }
                r
            },
            Stmt::StructDef(ty) => Stmt::StructDef(ty.duplicate()),
            Stmt::IfElse(cond, then, else_) => Stmt::IfElse(
                cond.duplicate(),
                Box::new(then.duplicate()),
                match else_ {
                    Some(s) => Some(Box::new(s.duplicate())),
                    None => None,
                },
            ),
            Stmt::For(init, cond, inc, body) => Stmt::For(
                duplicate_opt(init),
                duplicate_opt(cond),
                duplicate_opt(inc),
                Box::new(body.duplicate()),
            ),
            Stmt::Break => Stmt::Break,
            Stmt::Cont => Stmt::Cont,
            Stmt::Return(e) => Stmt::Return(e.duplicate()),
            Stmt::Block(stmts) => {
                let r = Stmt::Block(Self::duplicate_all(stmts));
                proof {
                    assert(r@->Block_0 =~= self@->Block_0);
                }
                r
            },
            Stmt::Expr(e) => Stmt::Expr(e.duplicate()),
        }
    }

    /// A copy of a list of statements.
    pub fn duplicate_all(stmts: &Vec<Stmt>) -> (r: Vec<Stmt>)
        ensures
            r@.len() == stmts@.len(),
            forall|i: int| 0 <= i < stmts@.len() ==> (#[trigger] r@[i])@ == stmts@[i]@,
        decreases *stmts,
    {
        let mut copies: Vec<Stmt> = Vec::new();
        let mut i: usize = 0;
        while i < stmts.len()
            invariant
                i <= stmts@.len(),
                copies@.len() == i,
                forall|j: int| 0 <= j < i ==> (#[trigger] copies@[j])@ == stmts@[j]@,
            decreases stmts@.len() - i,
        {
            copies.push(stmts[i].duplicate());
            i += 1;
        }
        copies
    }
}

// ----- taking tokens -----

/// Whether the cursor `after` is the cursor `before` moved on to where
/// `want` says, and `got` is what `want` says.
pub open spec fn parsed<V>(
    before: Tokenizer,
    after: Tokenizer,
    got: Result<V, ErrorKind>,
    want: (Result<V, ErrorKind>, int),
) -> bool {
    &&& after.wf()
    &&& after.items() == before.items()
    &&& after.pos() >= before.pos()
    &&& after.pos() == want.1
    &&& got == want.0
}

/// The result of reading an expression, with what was read taken by its view.
pub open spec fn res_ast(r: Expected<AST>) -> Result<AstView, ErrorKind> {
    match r {
        Ok(v) => Ok(v@),
        Err(k) => Err(k),
    }
}

/// The result of reading a statement, with what was read taken by its view.
pub open spec fn res_stmt(r: Expected<Stmt>) -> Result<StmtView, ErrorKind> {
    match r {
        Ok(v) => Ok(v@),
        Err(k) => Err(k),
    }
}

/// The result of reading a type, with what was read taken by its view.
pub open spec fn res_type(r: Expected<Type>) -> Result<TypeView, ErrorKind> {
    match r {
        Ok(v) => Ok(v@),
        Err(k) => Err(k),
    }
}

/// The result of reading a list of statements, with what was read taken by its view.
pub open spec fn res_stmts(r: Expected<Vec<Stmt>>) -> Result<Seq<StmtView>, ErrorKind> {
    match r {
        Ok(v) => Ok(stmts_view(v@)),
        Err(k) => Err(k),
    }
}

/// The result of reading a list of expressions, with what was read taken by its view.
pub open spec fn res_asts(r: Expected<Vec<AST>>) -> Result<Seq<AstView>, ErrorKind> {
    match r {
        Ok(v) => Ok(asts_view(v@)),
        Err(k) => Err(k),
    }
}

/// The result of reading a type with a name, with what was read taken by its view.
pub open spec fn res_named(
    r: Expected<(Type, String)>,
) -> Result<(TypeView, Seq<char>), ErrorKind> {
    match r {
        Ok(v) => Ok(named_view(v)),
        Err(k) => Err(k),
    }
}

/// The result of reading a list of types with names, with what was read taken by its view.
pub open spec fn res_nameds(r: Expected<Vec<(Type, String)>>) -> Result<
    Seq<(TypeView, Seq<char>)>,
    ErrorKind,
> {
    match r {
        Ok(v) => Ok(nameds_view(v@)),
        Err(k) => Err(k),
    }
}

/// The result of reading a declaration, with what was read taken by its view.
pub open spec fn res_decl(r: Expected<(Type, String, Option<AST>)>) -> Result<DeclView, ErrorKind> {
    match r {
        Ok(v) => Ok(decl_view(v)),
        Err(k) => Err(k),
    }
}

/// The result of reading a list of declarations, with what was read taken by its view.
pub open spec fn res_decls(r: Expected<Vec<(Type, String, Option<AST>)>>) -> Result<
    Seq<DeclView>,
    ErrorKind,
> {
    match r {
        Ok(v) => Ok(decls_view(v@)),
        Err(k) => Err(k),
    }
}

/// The result of reading a top-level item, with what was read taken by its view.
pub open spec fn res_toplevel(r: Expected<TopLevel>) -> Result<TopLevelView, ErrorKind> {
    match r {
        Ok(v) => Ok(v@),
        Err(k) => Err(k),
    }
}

/// The result of reading a list of top-level items, with what was read taken by its view.
pub open spec fn res_toplevels(r: Expected<Vec<TopLevel>>) -> Result<Seq<TopLevelView>, ErrorKind> {
    match r {
        Ok(v) => Ok(toplevels_view(v@)),
        Err(k) => Err(k),
    }
}

/// Whether the cursor is at the end of the text.
pub open spec fn p_eof(t: Seq<Lexeme>, i: int) -> Result<bool, ErrorKind> {
    match t[i] {
        Ok(tok) => Ok(tok == TokenView::Eof),
        Err(k) => Err(k),
    }
}

/// Taking the token `tok` if the cursor is at it: whether it was taken, and
/// where reading goes on.
pub open spec fn p_take(t: Seq<Lexeme>, i: int, tok: TokenView) -> (Result<bool, ErrorKind>, int) {
    match t[i] {
        Ok(found) => if found == tok && i + 1 < t.len() {
            (Ok(true), i + 1)
        } else {
            (Ok(false), i)
        },
        Err(k) => (Err(k), i),
    }
}

/// Taking the punctuator `op` if the cursor is at it.
pub open spec fn p_consume(
    t: Seq<Lexeme>,
    i: int,
    op: Seq<char>,
) -> (Result<bool, ErrorKind>, int) {
    p_take(t, i, TokenView::Punct(op))
}

/// Taking the keyword `keyword` if the cursor is at it.
pub open spec fn p_consume_keyword(t: Seq<Lexeme>, i: int, keyword: Seq<char>) -> (
    Result<bool, ErrorKind>,
    int,
) {
    p_take(t, i, TokenView::Keyword(keyword))
}

/// Taking the identifier under the cursor, if there is one.
pub open spec fn p_consume_ident(
    t: Seq<Lexeme>,
    i: int,
) -> (Result<Option<Seq<char>>, ErrorKind>, int) {
    match t[i] {
        Ok(TokenView::Ident(name)) => if i + 1 < t.len() {
            (Ok(Some(name)), i + 1)
        } else {
            (Ok(None), i)
        },
        Ok(_) => (Ok(None), i),
        Err(k) => (Err(k), i),
    }
}

/// Taking the number under the cursor, if there is one.
pub open spec fn p_consume_num(t: Seq<Lexeme>, i: int) -> (Result<Option<u64>, ErrorKind>, int) {
    match t[i] {
        Ok(TokenView::Num(n)) => if i + 1 < t.len() {
            (Ok(Some(n)), i + 1)
        } else {
            (Ok(None), i)
        },
        Ok(_) => (Ok(None), i),
        Err(k) => (Err(k), i),
    }
}

/// Taking the string literal under the cursor, if there is one.
pub open spec fn p_consume_str(
    t: Seq<Lexeme>,
    i: int,
) -> (Result<Option<Seq<char>>, ErrorKind>, int) {
    match t[i] {
        Ok(TokenView::Str(text)) => if i + 1 < t.len() {
            (Ok(Some(text)), i + 1)
        } else {
            (Ok(None), i)
        },
        Ok(_) => (Ok(None), i),
        Err(k) => (Err(k), i),
    }
}

/// Taking the punctuator `op`; anything else is an error.
pub open spec fn p_expect(t: Seq<Lexeme>, i: int, op: Seq<char>) -> (Result<(), ErrorKind>, int) {
    match p_consume(t, i, op) {
        (Ok(true), j) => (Ok(()), j),
        (Ok(false), j) => (Err(ErrorKind::ExpectedPunctuator), j),
        (Err(k), j) => (Err(k), j),
    }
}

/// Taking the identifier under the cursor; anything else is an error.
pub open spec fn p_expect_ident(t: Seq<Lexeme>, i: int) -> (Result<Seq<char>, ErrorKind>, int) {
    match p_consume_ident(t, i) {
        (Ok(Some(name)), j) => (Ok(name), j),
        (Ok(None), j) => (Err(ErrorKind::ExpectedIdentifier), j),
        (Err(k), j) => (Err(k), j),
    }
}

/// Taking the number under the cursor; anything else is an error.
pub open spec fn p_expect_num(t: Seq<Lexeme>, i: int) -> (Result<u64, ErrorKind>, int) {
    match p_consume_num(t, i) {
        (Ok(Some(n)), j) => (Ok(n), j),
        (Ok(None), j) => (Err(ErrorKind::ExpectedNumber), j),
        (Err(k), j) => (Err(k), j),
    }
}

/// Whether the cursor is at the end of the text.
pub fn consume_eof(it: &mut Tokenizer) -> (r: Expected<bool>)
    requires
        old(it).wf(),
    ensures
        *final(it) == *old(it),
        r == p_eof(old(it).items(), old(it).pos()),
{
    match it.current() {
        Ok(Token::Eof) => Ok(true),
        Ok(_) => Ok(false),
        Err(k) => Err(k),
    }
}

/// Takes the keyword `keyword` if the cursor is at it.
pub fn consume_keyword(it: &mut Tokenizer, keyword: &str) -> (r: Expected<bool>)
    requires
        old(it).wf(),
    ensures
        parsed(
            *old(it),
            *final(it),
            r,
            p_consume_keyword(old(it).items(), old(it).pos(), keyword@),
        ),
{
    match it.current() {
        Ok(Token::Keyword(w)) => {
            if str_eq(w.as_str(), keyword) {
                it.advance();
                Ok(true)
            } else {
                Ok(false)
            }
        },
        Ok(_) => Ok(false),
        Err(k) => Err(k),
    }
}

/// What a name that may be absent is, to a contract.
pub open spec fn opt_name(r: Expected<Option<String>>) -> Result<Option<Seq<char>>, ErrorKind> {
    match r {
        Ok(Some(s)) => Ok(Some(s@)),
        Ok(None) => Ok(None),
        Err(k) => Err(k),
    }
}

/// What a name is, to a contract.
pub open spec fn res_name(r: Expected<String>) -> Result<Seq<char>, ErrorKind> {
    match r {
        Ok(s) => Ok(s@),
        Err(k) => Err(k),
    }
}

/// Takes the identifier under the cursor, if there is one.
pub fn consume_ident(it: &mut Tokenizer) -> (r: Expected<Option<String>>)
    requires
        old(it).wf(),
    ensures
        parsed(*old(it), *final(it), opt_name(r), p_consume_ident(old(it).items(), old(it).pos())),
{
    match it.current() {
        Ok(Token::Ident(name)) => {
            it.advance();
            Ok(Some(name))
        },
        Ok(_) => Ok(None),
        Err(k) => Err(k),
    }
}

/// Takes the number under the cursor, if there is one.
pub fn consume_num(it: &mut Tokenizer) -> (r: Expected<Option<u64>>)
    requires
        old(it).wf(),
    ensures
        parsed(*old(it), *final(it), r, p_consume_num(old(it).items(), old(it).pos())),
{
    match it.current() {
        Ok(Token::Num(n)) => {
            it.advance();
            Ok(Some(n))
        },
        Ok(_) => Ok(None),
        Err(k) => Err(k),
    }
}

/// Takes the string literal under the cursor, if there is one.
pub fn consume_str(it: &mut Tokenizer) -> (r: Expected<Option<String>>)
    requires
        old(it).wf(),
    ensures
        parsed(*old(it), *final(it), opt_name(r), p_consume_str(old(it).items(), old(it).pos())),
{
    match it.current() {
        Ok(Token::Str(text)) => {
            it.advance();
            Ok(Some(text))
        },
        Ok(_) => Ok(None),
        Err(k) => Err(k),
    }
}

/// Takes the punctuator `op` if the cursor is at it.
pub fn consume(it: &mut Tokenizer, op: &str) -> (r: Expected<bool>)
    requires
        old(it).wf(),
    ensures
        parsed(*old(it), *final(it), r, p_consume(old(it).items(), old(it).pos(), op@)),
{
    match it.current() {
        Ok(Token::Punct(w)) => {
            if str_eq(w.as_str(), op) {
                it.advance();
                Ok(true)
            } else {
                Ok(false)
            }
        },
        Ok(_) => Ok(false),
        Err(k) => Err(k),
    }
}

/// Takes the identifier under the cursor; anything else is an error.
pub fn expect_ident(it: &mut Tokenizer) -> (r: Expected<String>)
    requires
        old(it).wf(),
    ensures
        parsed(*old(it), *final(it), res_name(r), p_expect_ident(old(it).items(), old(it).pos())),
{
    match consume_ident(it) {
        Ok(Some(name)) => Ok(name),
        Ok(None) => Err(ErrorKind::ExpectedIdentifier),
        Err(k) => Err(k),
    }
}

/// Takes the number under the cursor; anything else is an error.
pub fn expect_num(it: &mut Tokenizer) -> (r: Expected<u64>)
    requires
        old(it).wf(),
    ensures
        parsed(*old(it), *final(it), r, p_expect_num(old(it).items(), old(it).pos())),
{
    match consume_num(it) {
        Ok(Some(n)) => Ok(n),
        Ok(None) => Err(ErrorKind::ExpectedNumber),
        Err(k) => Err(k),
    }
}

/// Takes the punctuator `op`; anything else is an error.
pub fn expect(it: &mut Tokenizer, op: &str) -> (r: Expected<()>)
    requires
        old(it).wf(),
    ensures
        parsed(*old(it), *final(it), r, p_expect(old(it).items(), old(it).pos(), op@)),
{
    match consume(it, op) {
        Ok(true) => Ok(()),
        Ok(false) => Err(ErrorKind::ExpectedPunctuator),
        Err(k) => Err(k),
    }
}

/// The types and the names of a list of declarators, apart.
fn unzip(pairs: Vec<(Type, String)>) -> (r: (Vec<Type>, Vec<String>))
    ensures
        types_view(r.0@) == nameds_view(pairs@).map_values(|p: (TypeView, Seq<char>)| p.0),
        names_view(r.1@) == nameds_view(pairs@).map_values(|p: (TypeView, Seq<char>)| p.1),
{
    let ghost all = nameds_view(pairs@);
    let mut pairs = pairs;
    let mut tys: Vec<Type> = Vec::new();
    let mut names: Vec<String> = Vec::new();
    let ghost mut done: int = 0;
    while pairs.len() > 0
        invariant
            0 <= done <= all.len(),
            pairs@.len() == all.len() - done,
            tys@.len() == done,
            names@.len() == done,
            forall|j: int| 0 <= j < done ==> (#[trigger] tys@[j])@ == all[j].0,
            forall|j: int| 0 <= j < done ==> (#[trigger] names@[j])@ == all[j].1,
            forall|j: int| 0 <= j < pairs@.len() ==> named_view(
                #[trigger] pairs@[j],
            ) == all[done + j],
        decreases pairs@.len(),
    {
        let ghost before = pairs@;
        let (ty, name) = pairs.remove(0);
        assert(named_view(before[0]) == all[done]);
        assert forall|j: int| 0 <= j < pairs@.len() implies named_view(#[trigger] pairs@[j])
            == all[done + 1 + j] by {
            assert(pairs@[j] == before[j + 1]);
        }
        tys.push(ty);
        names.push(name);
        proof {
            done = done + 1;
        }
    }
    assert(types_view(tys@) =~= all.map_values(|p: (TypeView, Seq<char>)| p.0));
    assert(names_view(names@) =~= all.map_values(|p: (TypeView, Seq<char>)| p.1));
    (tys, names)
}

// ----- the grammar -----

/// A struct type with the tag `name` and the body `body`. One with neither
/// names nothing, and is an error.
pub open spec fn struct_type(
    name: Option<Seq<char>>,
    body: Option<(Seq<TypeView>, Seq<Seq<char>>)>,
) -> Result<
    TypeView,
    ErrorKind,
> {
    if name is None && body is None {
        Err(ErrorKind::StructUnnamed)
    } else {
        Ok(TypeView::Struct(name, body))
    }
}

/// The types and the names of a list of declarators, apart.
pub open spec fn unzipped(mems: Seq<(TypeView, Seq<char>)>) -> (Seq<TypeView>, Seq<Seq<char>>) {
    (
        mems.map_values(|p: (TypeView, Seq<char>)| p.0),
        mems.map_values(|p: (TypeView, Seq<char>)| p.1),
    )
}

/// Whether the type is a struct with a body.
pub open spec fn defines_struct_view(ty: TypeView) -> bool {
    match ty {
        TypeView::Struct(_, Some(_)) => true,
        _ => false,
    }
}

/// The top-level item that a declaration stands for: a function
/// declaration where its type is a function type, else a global variable.
pub open spec fn decl_toplevel(d: DeclView) -> TopLevelView {
    match d.ty {
        TypeView::FunTy(ret, params, _) => TopLevelView::FunDecl(*ret, d.name, params),
        _ => TopLevelView::VarDef(d.ty, d.name, d.init),
    }
}

/// The rules of the grammar.
pub enum Rule {
    Toplevel,
    FunBody,
    Declspec,
    StructDecl,
    StructMembers,
    StructMem,
    Declarators,
    DeclaratorsRest,
    Declarator,
    Stars,
    TypeSuffix,
    FunParams,
    FunParamsRest,
    Param,
    Decllist,
    DecllistRest,
    Declitem,
    CompoundStmt,
    Stmts,
    Stmt,
    If,
    For,
    While,
    SimpleStmt,
    OptExpr,
    Expr,
    Ternary,
    Assign,
    Equality,
    EqualityImpl,
    Relational,
    RelationalImpl,
    Add,
    AddImpl,
    Mul,
    MulImpl,
    Unary,
    Cast,
    Postfix,
    PostfixRest,
    Primary,
    FunArgs,
    FunArgsRest,
}

impl Rule {
    /// The rank of the rule: a rule asks at the place where it stands only
    /// for rules of lower rank.
    pub open spec fn rank(self) -> nat {
        match self {
            Rule::Toplevel => 30,
            Rule::FunBody => 29,
            Rule::Declspec => 4,
            Rule::StructDecl => 3,
            Rule::StructMembers => 6,
            Rule::StructMem => 5,
            Rule::Declarators => 4,
            Rule::DeclaratorsRest => 0,
            Rule::Declarator => 2,
            Rule::Stars => 0,
            Rule::TypeSuffix => 1,
            Rule::FunParams => 6,
            Rule::FunParamsRest => 0,
            Rule::Param => 5,
            Rule::Decllist => 26,
            Rule::DecllistRest => 0,
            Rule::Declitem => 25,
            Rule::CompoundStmt => 29,
            Rule::Stmts => 28,
            Rule::Stmt => 27,
            Rule::If => 26,
            Rule::For => 26,
            Rule::While => 26,
            Rule::SimpleStmt => 26,
            Rule::OptExpr => 21,
            Rule::Expr => 20,
            Rule::Ternary => 19,
            Rule::Assign => 18,
            Rule::Equality => 17,
            Rule::EqualityImpl => 16,
            Rule::Relational => 15,
            Rule::RelationalImpl => 14,
            Rule::Add => 13,
            Rule::AddImpl => 12,
            Rule::Mul => 11,
            Rule::MulImpl => 10,
            Rule::Unary => 9,
            Rule::Cast => 8,
            Rule::Postfix => 7,
            Rule::PostfixRest => 0,
            Rule::Primary => 6,
            Rule::FunArgs => 22,
            Rule::FunArgsRest => 0,
        }
    }
}

/// What a rule is given besides the place where it reads.
pub enum Arg {
    Nothing,
    Type(TypeView),
    Nameds(Seq<(TypeView, Seq<char>)>),
    TypeNameds(TypeView, Seq<(TypeView, Seq<char>)>),
    TypeDecls(TypeView, Seq<DeclView>),
    Stmts(Seq<StmtView>),
    Expr(AstView),
    Exprs(Seq<AstView>),
}

/// What a rule reads.
pub enum Out {
    TopLevels(Seq<TopLevelView>),
    TopLevel(TopLevelView),
    Type(TypeView),
    Nameds(Seq<(TypeView, Seq<char>)>),
    Named((TypeView, Seq<char>)),
    Decls(Seq<DeclView>),
    Decl(DeclView),
    Stmts(Seq<StmtView>),
    Stmt(StmtView),
    OptExpr(Option<AstView>),
    Expr(AstView),
    Exprs(Seq<AstView>),
}

/// What a rule answers: what it read, or the error, and the place where
/// reading goes on.
pub type Answer = (Result<Out, ErrorKind>, int);

/// A function that answers for the rules.
pub type Rules = spec_fn(Rule, int, Arg) -> Answer;

/// The answer that holds `r`.
pub open spec fn pack_toplevels(r: (Result<Seq<TopLevelView>, ErrorKind>, int)) -> Answer {
    match r.0 {
        Ok(v) => (Ok(Out::TopLevels(v)), r.1),
        Err(k) => (Err(k), r.1),
    }
}

/// What `g` answers for the rule `k` at `i`, read as a list of top-level items. An answer of
/// another kind is an error.
pub open spec fn ask_toplevels(
    g: Rules,
    k: Rule,
    i: int,
    a: Arg,
) -> (Result<Seq<TopLevelView>, ErrorKind>, int) {
    let r = g(k, i, a);
    match r.0 {
        Ok(Out::TopLevels(v)) => (Ok(v), r.1),
        Ok(_) => (Err(ErrorKind::ExpectedExpression), r.1),
        Err(k) => (Err(k), r.1),
    }
}

/// The answer that holds `r`.
pub open spec fn pack_toplevel(r: (Result<TopLevelView, ErrorKind>, int)) -> Answer {
    match r.0 {
        Ok(v) => (Ok(Out::TopLevel(v)), r.1),
        Err(k) => (Err(k), r.1),
    }
}

/// What `g` answers for the rule `k` at `i`, read as a top-level item. An answer of
/// another kind is an error.
pub open spec fn ask_toplevel(
    g: Rules,
    k: Rule,
    i: int,
    a: Arg,
) -> (Result<TopLevelView, ErrorKind>, int) {
    let r = g(k, i, a);
    match r.0 {
        Ok(Out::TopLevel(v)) => (Ok(v), r.1),
        Ok(_) => (Err(ErrorKind::ExpectedExpression), r.1),
        Err(k) => (Err(k), r.1),
    }
}

/// The answer that holds `r`.
pub open spec fn pack_type(r: (Result<TypeView, ErrorKind>, int)) -> Answer {
    match r.0 {
        Ok(v) => (Ok(Out::Type(v)), r.1),
        Err(k) => (Err(k), r.1),
    }
}

/// What `g` answers for the rule `k` at `i`, read as a type. An answer of
/// another kind is an error.
pub open spec fn ask_type(g: Rules, k: Rule, i: int, a: Arg) -> (Result<TypeView, ErrorKind>, int) {
    let r = g(k, i, a);
    match r.0 {
        Ok(Out::Type(v)) => (Ok(v), r.1),
        Ok(_) => (Err(ErrorKind::ExpectedExpression), r.1),
        Err(k) => (Err(k), r.1),
    }
}

/// The answer that holds `r`.
pub open spec fn pack_nameds(r: (Result<Seq<(TypeView, Seq<char>)>, ErrorKind>, int)) -> Answer {
    match r.0 {
        Ok(v) => (Ok(Out::Nameds(v)), r.1),
        Err(k) => (Err(k), r.1),
    }
}

/// What `g` answers for the rule `k` at `i`, read as a list of types with names. An answer of
/// another kind is an error.
pub open spec fn ask_nameds(
    g: Rules,
    k: Rule,
    i: int,
    a: Arg,
) -> (Result<Seq<(TypeView, Seq<char>)>, ErrorKind>, int) {
    let r = g(k, i, a);
    match r.0 {
        Ok(Out::Nameds(v)) => (Ok(v), r.1),
        Ok(_) => (Err(ErrorKind::ExpectedExpression), r.1),
        Err(k) => (Err(k), r.1),
    }
}

/// The answer that holds `r`.
pub open spec fn pack_named(r: (Result<(TypeView, Seq<char>), ErrorKind>, int)) -> Answer {
    match r.0 {
        Ok(v) => (Ok(Out::Named(v)), r.1),
        Err(k) => (Err(k), r.1),
    }
}

/// What `g` answers for the rule `k` at `i`, read as a type with a name. An answer of
/// another kind is an error.
pub open spec fn ask_named(
    g: Rules,
    k: Rule,
    i: int,
    a: Arg,
) -> (Result<(TypeView, Seq<char>), ErrorKind>, int) {
    let r = g(k, i, a);
    match r.0 {
        Ok(Out::Named(v)) => (Ok(v), r.1),
        Ok(_) => (Err(ErrorKind::ExpectedExpression), r.1),
        Err(k) => (Err(k), r.1),
    }
}

/// The answer that holds `r`.
pub open spec fn pack_decls(r: (Result<Seq<DeclView>, ErrorKind>, int)) -> Answer {
    match r.0 {
        Ok(v) => (Ok(Out::Decls(v)), r.1),
        Err(k) => (Err(k), r.1),
    }
}

/// What `g` answers for the rule `k` at `i`, read as a list of declarations. An answer of
/// another kind is an error.
pub open spec fn ask_decls(
    g: Rules,
    k: Rule,
    i: int,
    a: Arg,
) -> (Result<Seq<DeclView>, ErrorKind>, int) {
    let r = g(k, i, a);
    match r.0 {
        Ok(Out::Decls(v)) => (Ok(v), r.1),
        Ok(_) => (Err(ErrorKind::ExpectedExpression), r.1),
        Err(k) => (Err(k), r.1),
    }
}

/// The answer that holds `r`.
pub open spec fn pack_decl(r: (Result<DeclView, ErrorKind>, int)) -> Answer {
    match r.0 {
        Ok(v) => (Ok(Out::Decl(v)), r.1),
        Err(k) => (Err(k), r.1),
    }
}

/// What `g` answers for the rule `k` at `i`, read as a declaration. An answer of
/// another kind is an error.
pub open spec fn ask_decl(g: Rules, k: Rule, i: int, a: Arg) -> (Result<DeclView, ErrorKind>, int) {
    let r = g(k, i, a);
    match r.0 {
        Ok(Out::Decl(v)) => (Ok(v), r.1),
        Ok(_) => (Err(ErrorKind::ExpectedExpression), r.1),
        Err(k) => (Err(k), r.1),
    }
}

/// The answer that holds `r`.
pub open spec fn pack_stmts(r: (Result<Seq<StmtView>, ErrorKind>, int)) -> Answer {
    match r.0 {
        Ok(v) => (Ok(Out::Stmts(v)), r.1),
        Err(k) => (Err(k), r.1),
    }
}

/// What `g` answers for the rule `k` at `i`, read as a list of statements. An answer of
/// another kind is an error.
pub open spec fn ask_stmts(
    g: Rules,
    k: Rule,
    i: int,
    a: Arg,
) -> (Result<Seq<StmtView>, ErrorKind>, int) {
    let r = g(k, i, a);
    match r.0 {
        Ok(Out::Stmts(v)) => (Ok(v), r.1),
        Ok(_) => (Err(ErrorKind::ExpectedExpression), r.1),
        Err(k) => (Err(k), r.1),
    }
}

/// The answer that holds `r`.
pub open spec fn pack_stmt(r: (Result<StmtView, ErrorKind>, int)) -> Answer {
    match r.0 {
        Ok(v) => (Ok(Out::Stmt(v)), r.1),
        Err(k) => (Err(k), r.1),
    }
}

/// What `g` answers for the rule `k` at `i`, read as a statement. An answer of
/// another kind is an error.
pub open spec fn ask_stmt(g: Rules, k: Rule, i: int, a: Arg) -> (Result<StmtView, ErrorKind>, int) {
    let r = g(k, i, a);
    match r.0 {
        Ok(Out::Stmt(v)) => (Ok(v), r.1),
        Ok(_) => (Err(ErrorKind::ExpectedExpression), r.1),
        Err(k) => (Err(k), r.1),
    }
}

/// The answer that holds `r`.
pub open spec fn pack_opt_expr(r: (Option<AstView>, int)) -> Answer {
    (Ok(Out::OptExpr(r.0)), r.1)
}

/// What `g` answers for the rule `k` at `i`, read as an expression or none. An answer of
/// another kind counts as none.
pub open spec fn ask_opt_expr(g: Rules, k: Rule, i: int, a: Arg) -> (Option<AstView>, int) {
    let r = g(k, i, a);
    match r.0 {
        Ok(Out::OptExpr(v)) => (v, r.1),
        _ => (None, r.1),
    }
}

/// The answer that holds `r`.
pub open spec fn pack_expr(r: (Result<AstView, ErrorKind>, int)) -> Answer {
    match r.0 {
        Ok(v) => (Ok(Out::Expr(v)), r.1),
        Err(k) => (Err(k), r.1),
    }
}

/// What `g` answers for the rule `k` at `i`, read as an expression. An answer of
/// another kind is an error.
pub open spec fn ask_expr(g: Rules, k: Rule, i: int, a: Arg) -> (Result<AstView, ErrorKind>, int) {
    let r = g(k, i, a);
    match r.0 {
        Ok(Out::Expr(v)) => (Ok(v), r.1),
        Ok(_) => (Err(ErrorKind::ExpectedExpression), r.1),
        Err(k) => (Err(k), r.1),
    }
}

/// The answer that holds `r`.
pub open spec fn pack_exprs(r: (Result<Seq<AstView>, ErrorKind>, int)) -> Answer {
    match r.0 {
        Ok(v) => (Ok(Out::Exprs(v)), r.1),
        Err(k) => (Err(k), r.1),
    }
}

/// What `g` answers for the rule `k` at `i`, read as a list of expressions. An answer of
/// another kind is an error.
pub open spec fn ask_exprs(
    g: Rules,
    k: Rule,
    i: int,
    a: Arg,
) -> (Result<Seq<AstView>, ErrorKind>, int) {
    let r = g(k, i, a);
    match r.0 {
        Ok(Out::Exprs(v)) => (Ok(v), r.1),
        Ok(_) => (Err(ErrorKind::ExpectedExpression), r.1),
        Err(k) => (Err(k), r.1),
    }
}

/// toplevel    = declspec fun_body
///             | declspec decllist
///
/// What is no function definition is read as a list of declarations. A
/// declaration of a struct with a body and no declarator defines the struct.
pub open spec fn rule_toplevel(
    t: Seq<Lexeme>,
    i: int,
    g: Rules,
) -> (Result<Seq<TopLevelView>, ErrorKind>, int) {
    let r1 = ask_type(g, Rule::Declspec, i, Arg::Nothing);
    match r1.0 {
        Ok(ty) => {
            let r2 = ask_toplevel(g, Rule::FunBody, r1.1, Arg::Type(ty));
            match r2.0 {
                Ok(fun_def) => (Ok(seq![fun_def]), r2.1),
                Err(_) => {
                    let r3 = ask_decls(g, Rule::Decllist, r1.1, Arg::Type(ty));
                    match r3.0 {
                        Ok(decls) => if decls.len() == 0 && defines_struct_view(ty) {
                            (Ok(seq![TopLevelView::StructDef(ty)]), r3.1)
                        } else {
                            (Ok(decls.map_values(|d: DeclView| decl_toplevel(d))), r3.1)
                        },
                        Err(k) => (Err(k), r3.1),
                    }
                },
            }
        },
        Err(k) => (Err(k), r1.1),
    }
}

/// fun_body    = declarator "{" compound_stmt
pub open spec fn rule_fun_body(
    t: Seq<Lexeme>,
    i: int,
    ty: TypeView,
    g: Rules,
) -> (Result<TopLevelView, ErrorKind>, int) {
    let r1 = ask_named(g, Rule::Declarator, i, Arg::Type(ty));
    match r1.0 {
        Ok(decl) => match decl.0 {
            TypeView::FunTy(ret_ty, param_tys, param_names) => {
                let r8 = p_expect(t, r1.1, "{"@);
                match r8.0 {
                    Ok(_) => {
                        let r9 = ask_stmts(g, Rule::CompoundStmt, r8.1, Arg::Nothing);
                        match r9.0 {
                            Ok(body) => (
                                Ok(
                                    TopLevelView::FunDef(
                                        *ret_ty,
                                        decl.1,
                                        param_tys,
                                        param_names,
                                        body,
                                    ),
                                ),
                                r9.1,
                            ),
                            Err(k) => (Err(k), r9.1),
                        }
                    },
                    Err(k) => (Err(k), r8.1),
                }
            },
            _ => (Err(ErrorKind::DeclaratorNotFunction), r1.1),
        },
        Err(k) => (Err(k), r1.1),
    }
}

/// declspec    = "char" | "int" | "struct" ident? struct_decl?
///
/// A struct needs a tag or a body.
pub open spec fn rule_declspec(
    t: Seq<Lexeme>,
    i: int,
    g: Rules,
) -> (Result<TypeView, ErrorKind>, int) {
    let r1 = p_consume_keyword(t, i, "int"@);
    match r1.0 {
        Err(k) => (Err(k), r1.1),
        Ok(true) => (Ok(TypeView::Int), r1.1),
        Ok(false) => {
            let r2 = p_consume_keyword(t, i, "char"@);
            match r2.0 {
                Err(k) => (Err(k), r2.1),
                Ok(true) => (Ok(TypeView::Char), r2.1),
                Ok(false) => {
                    let r3 = p_consume_keyword(t, i, "struct"@);
                    match r3.0 {
                        Err(k) => (Err(k), r3.1),
                        Ok(true) => {
                            let r4 = p_consume_ident(t, r3.1);
                            match r4.0 {
                                Ok(name) => match t[r4.1] {
                                    Err(k) => (Err(k), r4.1),
                                    Ok(tok) => if tok == TokenView::Punct("{"@) {
                                        let r8 = ask_nameds(
                                            g,
                                            Rule::StructDecl,
                                            r4.1,
                                            Arg::Nothing,
                                        );
                                        match r8.0 {
                                            Ok(mems) => (
                                                struct_type(name, Some(unzipped(mems))),
                                                r8.1,
                                            ),
                                            Err(k) => (Err(k), r8.1),
                                        }
                                    } else {
                                        (struct_type(name, None), r4.1)
                                    },
                                },
                                Err(k) => (Err(k), r4.1),
                            }
                        },
                        Ok(false) => (Err(ErrorKind::ExpectedTypeName), i),
                    }
                },
            }
        },
    }
}

/// struct_decl = "{" struct_mem* "}"
pub open spec fn rule_struct_decl(
    t: Seq<Lexeme>,
    i: int,
    g: Rules,
) -> (Result<Seq<(TypeView, Seq<char>)>, ErrorKind>, int) {
    let r1 = p_expect(t, i, "{"@);
    match r1.0 {
        Ok(_) => ask_nameds(g, Rule::StructMembers, r1.1, Arg::Nameds(Seq::empty())),
        Err(k) => (Err(k), r1.1),
    }
}

/// The members of a struct up to the closing brace, where `acc` is what was
/// read of them so far. A member takes at least one token.
pub open spec fn rule_struct_members(
    t: Seq<Lexeme>,
    i: int,
    acc: Seq<(TypeView, Seq<char>)>,
    g: Rules,
) -> (Result<Seq<(TypeView, Seq<char>)>, ErrorKind>, int) {
    let r1 = p_consume(t, i, "}"@);
    match r1.0 {
        Err(k) => (Err(k), r1.1),
        Ok(true) => (Ok(acc), r1.1),
        Ok(false) => {
            let r2 = ask_nameds(g, Rule::StructMem, i, Arg::Nothing);
            match r2.0 {
                Ok(mem) => if r2.1 > i {
                    ask_nameds(g, Rule::StructMembers, r2.1, Arg::Nameds(acc + mem))
                } else {
                    (Err(ErrorKind::ExpectedTypeName), r2.1)
                },
                Err(k) => (Err(k), r2.1),
            }
        },
    }
}

/// struct_mem  = declspec declarators
pub open spec fn rule_struct_mem(
    t: Seq<Lexeme>,
    i: int,
    g: Rules,
) -> (Result<Seq<(TypeView, Seq<char>)>, ErrorKind>, int) {
    let r1 = ask_type(g, Rule::Declspec, i, Arg::Nothing);
    match r1.0 {
        Ok(ty) => ask_nameds(g, Rule::Declarators, r1.1, Arg::Type(ty)),
        Err(k) => (Err(k), r1.1),
    }
}

/// declarators = declarator ("," declarator)* ";"
pub open spec fn rule_declarators(
    t: Seq<Lexeme>,
    i: int,
    ty: TypeView,
    g: Rules,
) -> (Result<Seq<(TypeView, Seq<char>)>, ErrorKind>, int) {
    let r1 = ask_named(g, Rule::Declarator, i, Arg::Type(ty));
    match r1.0 {
        Ok(x) => ask_nameds(g, Rule::DeclaratorsRest, r1.1, Arg::TypeNameds(ty, seq![x])),
        Err(k) => (Err(k), r1.1),
    }
}

/// The rest of `declarators`, where `acc` is what was read of it so far.
pub open spec fn rule_declarators_rest(
    t: Seq<Lexeme>,
    i: int,
    ty: TypeView,
    acc: Seq<(TypeView, Seq<char>)>,
    g: Rules,
) -> (Result<Seq<(TypeView, Seq<char>)>, ErrorKind>, int) {
    let r0 = p_consume(t, i, ";"@);
    match r0.0 {
        Err(k) => (Err(k), r0.1),
        Ok(true) => (Ok(acc), r0.1),
        Ok(false) => {
            let r1 = p_expect(t, i, ","@);
            match r1.0 {
                Ok(_) => {
                    let r2 = ask_named(g, Rule::Declarator, r1.1, Arg::Type(ty));
                    match r2.0 {
                        Ok(x) => ask_nameds(
                            g,
                            Rule::DeclaratorsRest,
                            r2.1,
                            Arg::TypeNameds(ty, acc.push(x)),
                        ),
                        Err(k) => (Err(k), r2.1),
                    }
                },
                Err(k) => (Err(k), r1.1),
            }
        },
    }
}

/// declarator  = "*"* ident type_suffix
pub open spec fn rule_declarator(
    t: Seq<Lexeme>,
    i: int,
    ty: TypeView,
    g: Rules,
) -> (Result<(TypeView, Seq<char>), ErrorKind>, int) {
    let r1 = ask_type(g, Rule::Stars, i, Arg::Type(ty));
    match r1.0 {
        Ok(ty1) => {
            let r2 = p_expect_ident(t, r1.1);
            match r2.0 {
                Ok(name) => {
                    let r3 = ask_type(g, Rule::TypeSuffix, r2.1, Arg::Type(ty1));
                    match r3.0 {
                        Ok(ty2) => (Ok((ty2, name)), r3.1),
                        Err(k) => (Err(k), r3.1),
                    }
                },
                Err(k) => (Err(k), r2.1),
            }
        },
        Err(k) => (Err(k), r1.1),
    }
}

/// The stars of a declarator: each makes the type a pointer to what it was.
pub open spec fn rule_stars(
    t: Seq<Lexeme>,
    i: int,
    ty: TypeView,
    g: Rules,
) -> (Result<TypeView, ErrorKind>, int) {
    let r1 = p_consume(t, i, "*"@);
    match r1.0 {
        Err(k) => (Err(k), r1.1),
        Ok(true) => ask_type(g, Rule::Stars, r1.1, Arg::Type(TypeView::Pointer(Box::new(ty)))),
        Ok(false) => (Ok(ty), i),
    }
}

/// type_suffix = "[" num "]"
///             | "(" fun_params
///             | ε
pub open spec fn rule_type_suffix(
    t: Seq<Lexeme>,
    i: int,
    ty: TypeView,
    g: Rules,
) -> (Result<TypeView, ErrorKind>, int) {
    let r1 = p_consume(t, i, "["@);
    match r1.0 {
        Err(k) => (Err(k), r1.1),
        Ok(true) => {
            let r8 = p_expect_num(t, r1.1);
            match r8.0 {
                Ok(n) => if n > 0xffff_ffff {
                    (Err(ErrorKind::ArrayTooLong), r8.1)
                } else {
                    let r9 = p_expect(t, r8.1, "]"@);
                    match r9.0 {
                        Ok(_) => (Ok(TypeView::Array(Box::new(ty), n as u32)), r9.1),
                        Err(k) => (Err(k), r9.1),
                    }
                },
                Err(k) => (Err(k), r8.1),
            }
        },
        Ok(false) => {
            let r2 = p_consume(t, i, "("@);
            match r2.0 {
                Err(k) => (Err(k), r2.1),
                Ok(true) => {
                    let r3 = ask_nameds(g, Rule::FunParams, r2.1, Arg::Nothing);
                    match r3.0 {
                        Ok(params) => (
                            Ok(
                                TypeView::FunTy(
                                    Box::new(ty),
                                    unzipped(params).0,
                                    unzipped(params).1,
                                ),
                            ),
                            r3.1,
                        ),
                        Err(k) => (Err(k), r3.1),
                    }
                },
                Ok(false) => (Ok(ty), i),
            }
        },
    }
}

/// fun_params  = param (("," param)*)? ")"
pub open spec fn rule_fun_params(
    t: Seq<Lexeme>,
    i: int,
    g: Rules,
) -> (Result<Seq<(TypeView, Seq<char>)>, ErrorKind>, int) {
    let r0 = p_consume(t, i, ")"@);
    match r0.0 {
        Err(k) => (Err(k), r0.1),
        Ok(true) => (Ok(Seq::empty()), r0.1),
        Ok(false) => {
            let r1 = ask_named(g, Rule::Param, i, Arg::Nothing);
            match r1.0 {
                Ok(x) => ask_nameds(g, Rule::FunParamsRest, r1.1, Arg::Nameds(seq![x])),
                Err(k) => (Err(k), r1.1),
            }
        },
    }
}

/// The rest of `fun_params`, where `acc` is what was read of it so far.
pub open spec fn rule_fun_params_rest(
    t: Seq<Lexeme>,
    i: int,
    acc: Seq<(TypeView, Seq<char>)>,
    g: Rules,
) -> (Result<Seq<(TypeView, Seq<char>)>, ErrorKind>, int) {
    let r0 = p_consume(t, i, ")"@);
    match r0.0 {
        Err(k) => (Err(k), r0.1),
        Ok(true) => (Ok(acc), r0.1),
        Ok(false) => {
            let r1 = p_expect(t, i, ","@);
            match r1.0 {
                Ok(_) => {
                    let r2 = ask_named(g, Rule::Param, r1.1, Arg::Nothing);
                    match r2.0 {
                        Ok(x) => ask_nameds(g, Rule::FunParamsRest, r2.1, Arg::Nameds(acc.push(x))),
                        Err(k) => (Err(k), r2.1),
                    }
                },
                Err(k) => (Err(k), r1.1),
            }
        },
    }
}

/// param       = declspec declarator
pub open spec fn rule_param(
    t: Seq<Lexeme>,
    i: int,
    g: Rules,
) -> (Result<(TypeView, Seq<char>), ErrorKind>, int) {
    let r1 = ask_type(g, Rule::Declspec, i, Arg::Nothing);
    match r1.0 {
        Ok(ty) => ask_named(g, Rule::Declarator, r1.1, Arg::Type(ty)),
        Err(k) => (Err(k), r1.1),
    }
}

/// decllist    = (declitem ("," declitem)*)? ";"
pub open spec fn rule_decllist(
    t: Seq<Lexeme>,
    i: int,
    ty: TypeView,
    g: Rules,
) -> (Result<Seq<DeclView>, ErrorKind>, int) {
    let r0 = p_consume(t, i, ";"@);
    match r0.0 {
        Err(k) => (Err(k), r0.1),
        Ok(true) => (Ok(Seq::empty()), r0.1),
        Ok(false) => {
            let r1 = ask_decl(g, Rule::Declitem, i, Arg::Type(ty));
            match r1.0 {
                Ok(x) => ask_decls(g, Rule::DecllistRest, r1.1, Arg::TypeDecls(ty, seq![x])),
                Err(k) => (Err(k), r1.1),
            }
        },
    }
}

/// The rest of `decllist`, where `acc` is what was read of it so far.
pub open spec fn rule_decllist_rest(
    t: Seq<Lexeme>,
    i: int,
    ty: TypeView,
    acc: Seq<DeclView>,
    g: Rules,
) -> (Result<Seq<DeclView>, ErrorKind>, int) {
    let r0 = p_consume(t, i, ";"@);
    match r0.0 {
        Err(k) => (Err(k), r0.1),
        Ok(true) => (Ok(acc), r0.1),
        Ok(false) => {
            let r1 = p_expect(t, i, ","@);
            match r1.0 {
                Ok(_) => {
                    let r2 = ask_decl(g, Rule::Declitem, r1.1, Arg::Type(ty));
                    match r2.0 {
                        Ok(x) => ask_decls(
                            g,
                            Rule::DecllistRest,
                            r2.1,
                            Arg::TypeDecls(ty, acc.push(x)),
                        ),
                        Err(k) => (Err(k), r2.1),
                    }
                },
                Err(k) => (Err(k), r1.1),
            }
        },
    }
}

/// declitem    = declarator ("=" expr)?
pub open spec fn rule_declitem(
    t: Seq<Lexeme>,
    i: int,
    ty: TypeView,
    g: Rules,
) -> (Result<DeclView, ErrorKind>, int) {
    let r1 = ask_named(g, Rule::Declarator, i, Arg::Type(ty));
    match r1.0 {
        Ok(decl) => if decl.0 is FunTy {
            (Ok(DeclView { ty: decl.0, name: decl.1, init: None }), r1.1)
        } else {
            let r8 = p_consume(t, r1.1, "="@);
            match r8.0 {
                Err(k) => (Err(k), r8.1),
                Ok(true) => {
                    let r9 = ask_expr(g, Rule::Expr, r8.1, Arg::Nothing);
                    match r9.0 {
                        Ok(init) => (
                            Ok(DeclView { ty: decl.0, name: decl.1, init: Some(init) }),
                            r9.1,
                        ),
                        Err(k) => (Err(k), r9.1),
                    }
                },
                Ok(false) => (Ok(DeclView { ty: decl.0, name: decl.1, init: None }), r1.1),
            }
        },
        Err(k) => (Err(k), r1.1),
    }
}

/// compound_stmt = stmt* "}"
pub open spec fn rule_compound_stmt(
    t: Seq<Lexeme>,
    i: int,
    g: Rules,
) -> (Result<Seq<StmtView>, ErrorKind>, int) {
    ask_stmts(g, Rule::Stmts, i, Arg::Stmts(Seq::empty()))
}

/// The statements up to the closing brace, where `acc` is what was read of
/// them so far. A statement takes at least one token.
pub open spec fn rule_stmts(
    t: Seq<Lexeme>,
    i: int,
    acc: Seq<StmtView>,
    g: Rules,
) -> (Result<Seq<StmtView>, ErrorKind>, int) {
    let r1 = p_consume(t, i, "}"@);
    match r1.0 {
        Err(k) => (Err(k), r1.1),
        Ok(true) => (Ok(acc), r1.1),
        Ok(false) => {
            let r2 = ask_stmt(g, Rule::Stmt, i, Arg::Nothing);
            match r2.0 {
                Ok(s) => if r2.1 > i {
                    ask_stmts(g, Rule::Stmts, r2.1, Arg::Stmts(acc.push(s)))
                } else {
                    (Err(ErrorKind::ExpectedExpression), r2.1)
                },
                Err(k) => (Err(k), r2.1),
            }
        },
    }
}

/// stmt        = declspec decllist
///             | "if" "(" expr ")" stmt ("else" stmt)?
///             | "for" "(" expr? ";" expr? ";" expr? ")" stmt
///             | "while" "(" expr ")" stmt
///             | "break" ";"
///             | "continue" ";"
///             | "return" expr ";"
///             | "{" compound_stmt
///             | ";"
///             | expr ";"
///
/// A declaration of a struct with a body and no declarator defines the
/// struct. What does not start a declaration is read as one of the others.
pub open spec fn rule_stmt(t: Seq<Lexeme>, i: int, g: Rules) -> (Result<StmtView, ErrorKind>, int) {
    let r1 = ask_type(g, Rule::Declspec, i, Arg::Nothing);
    match r1.0 {
        Ok(ty) => {
            let r2 = ask_decls(g, Rule::Decllist, r1.1, Arg::Type(ty));
            match r2.0 {
                Ok(decls) => if decls.len() == 0 && defines_struct_view(ty) {
                    (Ok(StmtView::StructDef(ty)), r2.1)
                } else {
                    (Ok(StmtView::VarDef(decls)), r2.1)
                },
                Err(k) => (Err(k), r2.1),
            }
        },
        Err(_) => {
            let r3 = p_consume_keyword(t, i, "if"@);
            match r3.0 {
                Err(k) => (Err(k), r3.1),
                Ok(true) => ask_stmt(g, Rule::If, r3.1, Arg::Nothing),
                Ok(false) => {
                    let r4 = p_consume_keyword(t, i, "for"@);
                    match r4.0 {
                        Err(k) => (Err(k), r4.1),
                        Ok(true) => ask_stmt(g, Rule::For, r4.1, Arg::Nothing),
                        Ok(false) => {
                            let r5 = p_consume_keyword(t, i, "while"@);
                            match r5.0 {
                                Err(k) => (Err(k), r5.1),
                                Ok(true) => ask_stmt(g, Rule::While, r5.1, Arg::Nothing),
                                Ok(false) => ask_stmt(g, Rule::SimpleStmt, i, Arg::Nothing),
                            }
                        },
                    }
                },
            }
        },
    }
}

/// What follows `if`: "(" expr ")" stmt ("else" stmt)?
pub open spec fn rule_if(t: Seq<Lexeme>, i: int, g: Rules) -> (Result<StmtView, ErrorKind>, int) {
    let r1 = p_expect(t, i, "("@);
    match r1.0 {
        Ok(_) => {
            let r2 = ask_expr(g, Rule::Expr, r1.1, Arg::Nothing);
            match r2.0 {
                Ok(cond) => {
                    let r3 = p_expect(t, r2.1, ")"@);
                    match r3.0 {
                        Ok(_) => {
                            let r4 = ask_stmt(g, Rule::Stmt, r3.1, Arg::Nothing);
                            match r4.0 {
                                Ok(then) => {
                                    let r5 = p_consume_keyword(t, r4.1, "else"@);
                                    match r5.0 {
                                        Err(k) => (Err(k), r5.1),
                                        Ok(true) => {
                                            let r6 = ask_stmt(g, Rule::Stmt, r5.1, Arg::Nothing);
                                            match r6.0 {
                                                Ok(else_) => (
                                                    Ok(
                                                        StmtView::IfElse(
                                                            cond,
                                                            Box::new(then),
                                                            Some(Box::new(else_)),
                                                        ),
                                                    ),
                                                    r6.1,
                                                ),
                                                Err(k) => (Err(k), r6.1),
                                            }
                                        },
                                        Ok(false) => (
                                            Ok(StmtView::IfElse(cond, Box::new(then), None)),
                                            r4.1,
                                        ),
                                    }
                                },
                                Err(k) => (Err(k), r4.1),
                            }
                        },
                        Err(k) => (Err(k), r3.1),
                    }
                },
                Err(k) => (Err(k), r2.1),
            }
        },
        Err(k) => (Err(k), r1.1),
    }
}

/// What follows `for`: "(" expr? ";" expr? ";" expr? ")" stmt
pub open spec fn rule_for(t: Seq<Lexeme>, i: int, g: Rules) -> (Result<StmtView, ErrorKind>, int) {
    let r1 = p_expect(t, i, "("@);
    match r1.0 {
        Ok(_) => {
            let r2 = ask_opt_expr(g, Rule::OptExpr, r1.1, Arg::Nothing);
            let n1 = r2.0;
            let r3 = p_expect(t, r2.1, ";"@);
            match r3.0 {
                Ok(_) => {
                    let r4 = ask_opt_expr(g, Rule::OptExpr, r3.1, Arg::Nothing);
                    let n2 = r4.0;
                    let r5 = p_expect(t, r4.1, ";"@);
                    match r5.0 {
                        Ok(_) => {
                            let r6 = ask_opt_expr(g, Rule::OptExpr, r5.1, Arg::Nothing);
                            let n3 = r6.0;
                            let r7 = p_expect(t, r6.1, ")"@);
                            match r7.0 {
                                Ok(_) => {
                                    let r8 = ask_stmt(g, Rule::Stmt, r7.1, Arg::Nothing);
                                    match r8.0 {
                                        Ok(body) => (
                                            Ok(StmtView::For(n1, n2, n3, Box::new(body))),
                                            r8.1,
                                        ),
                                        Err(k) => (Err(k), r8.1),
                                    }
                                },
                                Err(k) => (Err(k), r7.1),
                            }
                        },
                        Err(k) => (Err(k), r5.1),
                    }
                },
                Err(k) => (Err(k), r3.1),
            }
        },
        Err(k) => (Err(k), r1.1),
    }
}

/// What follows `while`: "(" expr ")" stmt. The loop is a `for` with a
/// condition alone.
pub open spec fn rule_while(
    t: Seq<Lexeme>,
    i: int,
    g: Rules,
) -> (Result<StmtView, ErrorKind>, int) {
    let r1 = p_expect(t, i, "("@);
    match r1.0 {
        Ok(_) => {
            let r2 = ask_opt_expr(g, Rule::OptExpr, r1.1, Arg::Nothing);
            let n2 = r2.0;
            let r3 = p_expect(t, r2.1, ")"@);
            match r3.0 {
                Ok(_) => {
                    let r4 = ask_stmt(g, Rule::Stmt, r3.1, Arg::Nothing);
                    match r4.0 {
                        Ok(body) => (Ok(StmtView::For(None, n2, None, Box::new(body))), r4.1),
                        Err(k) => (Err(k), r4.1),
                    }
                },
                Err(k) => (Err(k), r3.1),
            }
        },
        Err(k) => (Err(k), r1.1),
    }
}

/// The statements that are no declaration and do not start with `if`,
/// `for` or `while`.
pub open spec fn rule_simple_stmt(
    t: Seq<Lexeme>,
    i: int,
    g: Rules,
) -> (Result<StmtView, ErrorKind>, int) {
    let r1 = p_consume_keyword(t, i, "break"@);
    match r1.0 {
        Err(k) => (Err(k), r1.1),
        Ok(true) => {
            let r2 = p_expect(t, r1.1, ";"@);
            match r2.0 {
                Ok(_) => (Ok(StmtView::Break), r2.1),
                Err(k) => (Err(k), r2.1),
            }
        },
        Ok(false) => {
            let r3 = p_consume_keyword(t, i, "continue"@);
            match r3.0 {
                Err(k) => (Err(k), r3.1),
                Ok(true) => {
                    let r4 = p_expect(t, r3.1, ";"@);
                    match r4.0 {
                        Ok(_) => (Ok(StmtView::Cont), r4.1),
                        Err(k) => (Err(k), r4.1),
                    }
                },
                Ok(false) => {
                    let r5 = p_consume_keyword(t, i, "return"@);
                    match r5.0 {
                        Err(k) => (Err(k), r5.1),
                        Ok(true) => {
                            let r6 = ask_expr(g, Rule::Expr, r5.1, Arg::Nothing);
                            match r6.0 {
                                Ok(n) => {
                                    let r7 = p_expect(t, r6.1, ";"@);
                                    match r7.0 {
                                        Ok(_) => (Ok(StmtView::Return(n)), r7.1),
                                        Err(k) => (Err(k), r7.1),
                                    }
                                },
                                Err(k) => (Err(k), r6.1),
                            }
                        },
                        Ok(false) => {
                            let r8 = p_consume(t, i, "{"@);
                            match r8.0 {
                                Err(k) => (Err(k), r8.1),
                                Ok(true) => {
                                    let r9 = ask_stmts(g, Rule::CompoundStmt, r8.1, Arg::Nothing);
                                    match r9.0 {
                                        Ok(stmts) => (Ok(StmtView::Block(stmts)), r9.1),
                                        Err(k) => (Err(k), r9.1),
                                    }
                                },
                                Ok(false) => {
                                    let r10 = p_consume(t, i, ";"@);
                                    match r10.0 {
                                        Err(k) => (Err(k), r10.1),
                                        Ok(true) => (Ok(StmtView::Block(Seq::empty())), r10.1),
                                        Ok(false) => {
                                            let r11 = ask_expr(g, Rule::Expr, i, Arg::Nothing);
                                            match r11.0 {
                                                Ok(n) => {
                                                    let r12 = p_expect(t, r11.1, ";"@);
                                                    match r12.0 {
                                                        Ok(_) => (Ok(StmtView::Expr(n)), r12.1),
                                                        Err(k) => (Err(k), r12.1),
                                                    }
                                                },
                                                Err(k) => (Err(k), r11.1),
                                            }
                                        },
                                    }
                                },
                            }
                        },
                    }
                },
            }
        },
    }
}

/// An expression where one may stand. Where none is read, reading goes on
/// where the attempt ended.
pub open spec fn rule_opt_expr(t: Seq<Lexeme>, i: int, g: Rules) -> (Option<AstView>, int) {
    let r = ask_expr(g, Rule::Expr, i, Arg::Nothing);
    match r.0 {
        Ok(n) => (Some(n), r.1),
        Err(_) => (None, r.1),
    }
}

/// expr        = ternary
pub open spec fn rule_expr(t: Seq<Lexeme>, i: int, g: Rules) -> (Result<AstView, ErrorKind>, int) {
    ask_expr(g, Rule::Ternary, i, Arg::Nothing)
}

/// ternary     = assign ("?" expr ":" ternary)?
pub open spec fn rule_ternary(
    t: Seq<Lexeme>,
    i: int,
    g: Rules,
) -> (Result<AstView, ErrorKind>, int) {
    let r1 = ask_expr(g, Rule::Assign, i, Arg::Nothing);
    match r1.0 {
        Ok(cond) => {
            let r2 = p_consume(t, r1.1, "?"@);
            match r2.0 {
                Err(k) => (Err(k), r2.1),
                Ok(true) => {
                    let r3 = ask_expr(g, Rule::Expr, r2.1, Arg::Nothing);
                    match r3.0 {
                        Ok(then) => {
                            let r4 = p_expect(t, r3.1, ":"@);
                            match r4.0 {
                                Ok(_) => {
                                    let r5 = ask_expr(g, Rule::Ternary, r4.1, Arg::Nothing);
                                    match r5.0 {
                                        Ok(else_) => (
                                            Ok(
                                                AstView::Ternary(
                                                    Box::new(cond),
                                                    Box::new(then),
                                                    Box::new(else_),
                                                ),
                                            ),
                                            r5.1,
                                        ),
                                        Err(k) => (Err(k), r5.1),
                                    }
                                },
                                Err(k) => (Err(k), r4.1),
                            }
                        },
                        Err(k) => (Err(k), r3.1),
                    }
                },
                Ok(false) => (Ok(cond), r1.1),
            }
        },
        Err(k) => (Err(k), r1.1),
    }
}

/// assign      = equality ("=" assign | "+=" assign | "-=" assign | "*=" assign | "/=" assign)?
///
/// `x op= y` is read as `x = x op y`.
pub open spec fn rule_assign(
    t: Seq<Lexeme>,
    i: int,
    g: Rules,
) -> (Result<AstView, ErrorKind>, int) {
    let r1 = ask_expr(g, Rule::Equality, i, Arg::Nothing);
    match r1.0 {
        Ok(n) => {
            let r2 = p_consume(t, r1.1, "="@);
            match r2.0 {
                Err(k) => (Err(k), r2.1),
                Ok(true) => {
                    let r3 = ask_expr(g, Rule::Assign, r2.1, Arg::Nothing);
                    match r3.0 {
                        Ok(m) => (Ok(AstView::Assign(Box::new(n), Box::new(m))), r3.1),
                        Err(k) => (Err(k), r3.1),
                    }
                },
                Ok(false) => {
                    let r4 = p_consume(t, r1.1, "+="@);
                    match r4.0 {
                        Err(k) => (Err(k), r4.1),
                        Ok(true) => {
                            let r5 = ask_expr(g, Rule::Assign, r4.1, Arg::Nothing);
                            match r5.0 {
                                Ok(m) => (
                                    Ok(
                                        AstView::Assign(
                                            Box::new(n),
                                            Box::new(AstView::Add(Box::new(n), Box::new(m))),
                                        ),
                                    ),
                                    r5.1,
                                ),
                                Err(k) => (Err(k), r5.1),
                            }
                        },
                        Ok(false) => {
                            let r6 = p_consume(t, r1.1, "-="@);
                            match r6.0 {
                                Err(k) => (Err(k), r6.1),
                                Ok(true) => {
                                    let r7 = ask_expr(g, Rule::Assign, r6.1, Arg::Nothing);
                                    match r7.0 {
                                        Ok(m) => (
                                            Ok(
                                                AstView::Assign(
                                                    Box::new(n),
                                                    Box::new(
                                                        AstView::Sub(Box::new(n), Box::new(m)),
                                                    ),
                                                ),
                                            ),
                                            r7.1,
                                        ),
                                        Err(k) => (Err(k), r7.1),
                                    }
                                },
                                Ok(false) => {
                                    let r8 = p_consume(t, r1.1, "*="@);
                                    match r8.0 {
                                        Err(k) => (Err(k), r8.1),
                                        Ok(true) => {
                                            let r9 = ask_expr(g, Rule::Assign, r8.1, Arg::Nothing);
                                            match r9.0 {
                                                Ok(m) => (
                                                    Ok(
                                                        AstView::Assign(
                                                            Box::new(n),
                                                            Box::new(
                                                                AstView::Mul(
                                                                    Box::new(n),
                                                                    Box::new(m),
                                                                ),
                                                            ),
                                                        ),
                                                    ),
                                                    r9.1,
                                                ),
                                                Err(k) => (Err(k), r9.1),
                                            }
                                        },
                                        Ok(false) => {
                                            let r10 = p_consume(t, r1.1, "/="@);
                                            match r10.0 {
                                                Err(k) => (Err(k), r10.1),
                                                Ok(true) => {
                                                    let r11 = ask_expr(
                                                        g,
                                                        Rule::Assign,
                                                        r10.1,
                                                        Arg::Nothing,
                                                    );
                                                    match r11.0 {
                                                        Ok(m) => (
                                                            Ok(
                                                                AstView::Assign(
                                                                    Box::new(n),
                                                                    Box::new(
                                                                        AstView::Div(
                                                                            Box::new(n),
                                                                            Box::new(m),
                                                                        ),
                                                                    ),
                                                                ),
                                                            ),
                                                            r11.1,
                                                        ),
                                                        Err(k) => (Err(k), r11.1),
                                                    }
                                                },
                                                Ok(false) => (Ok(n), r1.1),
                                            }
                                        },
                                    }
                                },
                            }
                        },
                    }
                },
            }
        },
        Err(k) => (Err(k), r1.1),
    }
}

/// equality    = relational ("==" relational | "!=" relational)*
pub open spec fn rule_equality(
    t: Seq<Lexeme>,
    i: int,
    g: Rules,
) -> (Result<AstView, ErrorKind>, int) {
    let r1 = ask_expr(g, Rule::Relational, i, Arg::Nothing);
    match r1.0 {
        Ok(n) => ask_expr(g, Rule::EqualityImpl, r1.1, Arg::Expr(n)),
        Err(k) => (Err(k), r1.1),
    }
}

/// The rest of `equality`, where `n` is what was read of it so far.
pub open spec fn rule_equality_impl(
    t: Seq<Lexeme>,
    i: int,
    n: AstView,
    g: Rules,
) -> (Result<AstView, ErrorKind>, int) {
    let r1 = p_consume(t, i, "=="@);
    match r1.0 {
        Err(k) => (Err(k), r1.1),
        Ok(true) => {
            let r2 = ask_expr(g, Rule::Relational, r1.1, Arg::Nothing);
            match r2.0 {
                Ok(m) => ask_expr(
                    g,
                    Rule::EqualityImpl,
                    r2.1,
                    Arg::Expr(AstView::Eq(Box::new(n), Box::new(m))),
                ),
                Err(k) => (Err(k), r2.1),
            }
        },
        Ok(false) => {
            let r3 = p_consume(t, i, "!="@);
            match r3.0 {
                Err(k) => (Err(k), r3.1),
                Ok(true) => {
                    let r4 = ask_expr(g, Rule::Relational, r3.1, Arg::Nothing);
                    match r4.0 {
                        Ok(m) => ask_expr(
                            g,
                            Rule::EqualityImpl,
                            r4.1,
                            Arg::Expr(AstView::Ne(Box::new(n), Box::new(m))),
                        ),
                        Err(k) => (Err(k), r4.1),
                    }
                },
                Ok(false) => (Ok(n), i),
            }
        },
    }
}

/// relational  = add ("<" add | "<=" add | ">" add | ">=" add)*
///
/// `a > b` is read as `b < a`, and `a >= b` as `b <= a`.
pub open spec fn rule_relational(
    t: Seq<Lexeme>,
    i: int,
    g: Rules,
) -> (Result<AstView, ErrorKind>, int) {
    let r1 = ask_expr(g, Rule::Add, i, Arg::Nothing);
    match r1.0 {
        Ok(n) => ask_expr(g, Rule::RelationalImpl, r1.1, Arg::Expr(n)),
        Err(k) => (Err(k), r1.1),
    }
}

/// The rest of `relational`, where `n` is what was read of it so far.
pub open spec fn rule_relational_impl(
    t: Seq<Lexeme>,
    i: int,
    n: AstView,
    g: Rules,
) -> (Result<AstView, ErrorKind>, int) {
    let r1 = p_consume(t, i, "<"@);
    match r1.0 {
        Err(k) => (Err(k), r1.1),
        Ok(true) => {
            let r2 = ask_expr(g, Rule::Add, r1.1, Arg::Nothing);
            match r2.0 {
                Ok(m) => ask_expr(
                    g,
                    Rule::RelationalImpl,
                    r2.1,
                    Arg::Expr(AstView::Lt(Box::new(n), Box::new(m))),
                ),
                Err(k) => (Err(k), r2.1),
            }
        },
        Ok(false) => {
            let r3 = p_consume(t, i, "<="@);
            match r3.0 {
                Err(k) => (Err(k), r3.1),
                Ok(true) => {
                    let r4 = ask_expr(g, Rule::Add, r3.1, Arg::Nothing);
                    match r4.0 {
                        Ok(m) => ask_expr(
                            g,
                            Rule::RelationalImpl,
                            r4.1,
                            Arg::Expr(AstView::Le(Box::new(n), Box::new(m))),
                        ),
                        Err(k) => (Err(k), r4.1),
                    }
                },
                Ok(false) => {
                    let r5 = p_consume(t, i, ">"@);
                    match r5.0 {
                        Err(k) => (Err(k), r5.1),
                        Ok(true) => {
                            let r6 = ask_expr(g, Rule::Add, r5.1, Arg::Nothing);
                            match r6.0 {
                                Ok(m) => ask_expr(
                                    g,
                                    Rule::RelationalImpl,
                                    r6.1,
                                    Arg::Expr(AstView::Lt(Box::new(m), Box::new(n))),
                                ),
                                Err(k) => (Err(k), r6.1),
                            }
                        },
                        Ok(false) => {
                            let r7 = p_consume(t, i, ">="@);
                            match r7.0 {
                                Err(k) => (Err(k), r7.1),
                                Ok(true) => {
                                    let r8 = ask_expr(g, Rule::Add, r7.1, Arg::Nothing);
                                    match r8.0 {
                                        Ok(m) => ask_expr(
                                            g,
                                            Rule::RelationalImpl,
                                            r8.1,
                                            Arg::Expr(AstView::Le(Box::new(m), Box::new(n))),
                                        ),
                                        Err(k) => (Err(k), r8.1),
                                    }
                                },
                                Ok(false) => (Ok(n), i),
                            }
                        },
                    }
                },
            }
        },
    }
}

/// add         = mul ("+" mul | "-" mul)*
pub open spec fn rule_add(t: Seq<Lexeme>, i: int, g: Rules) -> (Result<AstView, ErrorKind>, int) {
    let r1 = ask_expr(g, Rule::Mul, i, Arg::Nothing);
    match r1.0 {
        Ok(n) => ask_expr(g, Rule::AddImpl, r1.1, Arg::Expr(n)),
        Err(k) => (Err(k), r1.1),
    }
}

/// The rest of `add`, where `n` is what was read of it so far.
pub open spec fn rule_add_impl(
    t: Seq<Lexeme>,
    i: int,
    n: AstView,
    g: Rules,
) -> (Result<AstView, ErrorKind>, int) {
    let r1 = p_consume(t, i, "+"@);
    match r1.0 {
        Err(k) => (Err(k), r1.1),
        Ok(true) => {
            let r2 = ask_expr(g, Rule::Mul, r1.1, Arg::Nothing);
            match r2.0 {
                Ok(m) => ask_expr(
                    g,
                    Rule::AddImpl,
                    r2.1,
                    Arg::Expr(AstView::Add(Box::new(n), Box::new(m))),
                ),
                Err(k) => (Err(k), r2.1),
            }
        },
        Ok(false) => {
            let r3 = p_consume(t, i, "-"@);
            match r3.0 {
                Err(k) => (Err(k), r3.1),
                Ok(true) => {
                    let r4 = ask_expr(g, Rule::Mul, r3.1, Arg::Nothing);
                    match r4.0 {
                        Ok(m) => ask_expr(
                            g,
                            Rule::AddImpl,
                            r4.1,
                            Arg::Expr(AstView::Sub(Box::new(n), Box::new(m))),
                        ),
                        Err(k) => (Err(k), r4.1),
                    }
                },
                Ok(false) => (Ok(n), i),
            }
        },
    }
}

/// mul         = unary ("*" unary | "/" unary)*
pub open spec fn rule_mul(t: Seq<Lexeme>, i: int, g: Rules) -> (Result<AstView, ErrorKind>, int) {
    let r1 = ask_expr(g, Rule::Unary, i, Arg::Nothing);
    match r1.0 {
        Ok(n) => ask_expr(g, Rule::MulImpl, r1.1, Arg::Expr(n)),
        Err(k) => (Err(k), r1.1),
    }
}

/// The rest of `mul`, where `n` is what was read of it so far.
pub open spec fn rule_mul_impl(
    t: Seq<Lexeme>,
    i: int,
    n: AstView,
    g: Rules,
) -> (Result<AstView, ErrorKind>, int) {
    let r1 = p_consume(t, i, "*"@);
    match r1.0 {
        Err(k) => (Err(k), r1.1),
        Ok(true) => {
            let r2 = ask_expr(g, Rule::Unary, r1.1, Arg::Nothing);
            match r2.0 {
                Ok(m) => ask_expr(
                    g,
                    Rule::MulImpl,
                    r2.1,
                    Arg::Expr(AstView::Mul(Box::new(n), Box::new(m))),
                ),
                Err(k) => (Err(k), r2.1),
            }
        },
        Ok(false) => {
            let r3 = p_consume(t, i, "/"@);
            match r3.0 {
                Err(k) => (Err(k), r3.1),
                Ok(true) => {
                    let r4 = ask_expr(g, Rule::Unary, r3.1, Arg::Nothing);
                    match r4.0 {
                        Ok(m) => ask_expr(
                            g,
                            Rule::MulImpl,
                            r4.1,
                            Arg::Expr(AstView::Div(Box::new(n), Box::new(m))),
                        ),
                        Err(k) => (Err(k), r4.1),
                    }
                },
                Ok(false) => (Ok(n), i),
            }
        },
    }
}

/// unary       = ("+" | "-" | "&" | "*" | "++" | "--") unary
///             | cast
///             | postfix
///
/// `-x` is read as `0 - x`, `++x` as `x = x + 1` and `--x` as `x = x - 1`.
pub open spec fn rule_unary(t: Seq<Lexeme>, i: int, g: Rules) -> (Result<AstView, ErrorKind>, int) {
    let r1 = p_consume(t, i, "+"@);
    match r1.0 {
        Err(k) => (Err(k), r1.1),
        Ok(true) => ask_expr(g, Rule::Unary, r1.1, Arg::Nothing),
        Ok(false) => {
            let r2 = p_consume(t, i, "-"@);
            match r2.0 {
                Err(k) => (Err(k), r2.1),
                Ok(true) => {
                    let r3 = ask_expr(g, Rule::Unary, r2.1, Arg::Nothing);
                    match r3.0 {
                        Ok(m) => (Ok(AstView::Sub(Box::new(AstView::Num(0)), Box::new(m))), r3.1),
                        Err(k) => (Err(k), r3.1),
                    }
                },
                Ok(false) => {
                    let r4 = p_consume(t, i, "&"@);
                    match r4.0 {
                        Err(k) => (Err(k), r4.1),
                        Ok(true) => {
                            let r5 = ask_expr(g, Rule::Unary, r4.1, Arg::Nothing);
                            match r5.0 {
                                Ok(n) => (Ok(AstView::Addr(Box::new(n))), r5.1),
                                Err(k) => (Err(k), r5.1),
                            }
                        },
                        Ok(false) => {
                            let r6 = p_consume(t, i, "*"@);
                            match r6.0 {
                                Err(k) => (Err(k), r6.1),
                                Ok(true) => {
                                    let r7 = ask_expr(g, Rule::Unary, r6.1, Arg::Nothing);
                                    match r7.0 {
                                        Ok(n) => (Ok(AstView::Deref(Box::new(n))), r7.1),
                                        Err(k) => (Err(k), r7.1),
                                    }
                                },
                                Ok(false) => {
                                    let r8 = p_consume(t, i, "++"@);
                                    match r8.0 {
                                        Err(k) => (Err(k), r8.1),
                                        Ok(true) => {
                                            let r9 = ask_expr(g, Rule::Unary, r8.1, Arg::Nothing);
                                            match r9.0 {
                                                Ok(n) => (
                                                    Ok(
                                                        AstView::Assign(
                                                            Box::new(n),
                                                            Box::new(
                                                                AstView::Add(
                                                                    Box::new(n),
                                                                    Box::new(AstView::Num(1)),
                                                                ),
                                                            ),
                                                        ),
                                                    ),
                                                    r9.1,
                                                ),
                                                Err(k) => (Err(k), r9.1),
                                            }
                                        },
                                        Ok(false) => {
                                            let r10 = p_consume(t, i, "--"@);
                                            match r10.0 {
                                                Err(k) => (Err(k), r10.1),
                                                Ok(true) => {
                                                    let r11 = ask_expr(
                                                        g,
                                                        Rule::Unary,
                                                        r10.1,
                                                        Arg::Nothing,
                                                    );
                                                    match r11.0 {
                                                        Ok(n) => (
                                                            Ok(
                                                                AstView::Assign(
                                                                    Box::new(n),
                                                                    Box::new(
                                                                        AstView::Sub(
                                                                            Box::new(n),
                                                                            Box::new(
                                                                                AstView::Num(1),
                                                                            ),
                                                                        ),
                                                                    ),
                                                                ),
                                                            ),
                                                            r11.1,
                                                        ),
                                                        Err(k) => (Err(k), r11.1),
                                                    }
                                                },
                                                Ok(false) => {
                                                    let r8 = ask_expr(
                                                        g,
                                                        Rule::Cast,
                                                        i,
                                                        Arg::Nothing,
                                                    );
                                                    match r8.0 {
                                                        Ok(n) => (Ok(n), r8.1),
                                                        Err(_) => ask_expr(
                                                            g,
                                                            Rule::Postfix,
                                                            i,
                                                            Arg::Nothing,
                                                        ),
                                                    }
                                                },
                                            }
                                        },
                                    }
                                },
                            }
                        },
                    }
                },
            }
        },
    }
}

/// cast        = "(" declspec ")" unary
pub open spec fn rule_cast(t: Seq<Lexeme>, i: int, g: Rules) -> (Result<AstView, ErrorKind>, int) {
    let r1 = p_expect(t, i, "("@);
    match r1.0 {
        Ok(_) => {
            let r2 = ask_type(g, Rule::Declspec, r1.1, Arg::Nothing);
            match r2.0 {
                Ok(ty) => {
                    let r3 = p_expect(t, r2.1, ")"@);
                    match r3.0 {
                        Ok(_) => {
                            let r4 = ask_expr(g, Rule::Unary, r3.1, Arg::Nothing);
                            match r4.0 {
                                Ok(n) => (Ok(AstView::Cast(ty, Box::new(n))), r4.1),
                                Err(k) => (Err(k), r4.1),
                            }
                        },
                        Err(k) => (Err(k), r3.1),
                    }
                },
                Err(k) => (Err(k), r2.1),
            }
        },
        Err(k) => (Err(k), r1.1),
    }
}

/// postfix     = primary ("[" expr "]" | "++" | "--" | "." ident)*
///
/// `a[i]` is read as `*(a + i)`, `i++` as `(i = i + 1) - 1` and `i--` as
/// `(i = i - 1) + 1`.
pub open spec fn rule_postfix(
    t: Seq<Lexeme>,
    i: int,
    g: Rules,
) -> (Result<AstView, ErrorKind>, int) {
    let r1 = ask_expr(g, Rule::Primary, i, Arg::Nothing);
    match r1.0 {
        Ok(n) => ask_expr(g, Rule::PostfixRest, r1.1, Arg::Expr(n)),
        Err(k) => (Err(k), r1.1),
    }
}

/// The rest of `postfix`, where `n` is what was read of it so far.
pub open spec fn rule_postfix_rest(
    t: Seq<Lexeme>,
    i: int,
    n: AstView,
    g: Rules,
) -> (Result<AstView, ErrorKind>, int) {
    let r1 = p_consume(t, i, "["@);
    match r1.0 {
        Err(k) => (Err(k), r1.1),
        Ok(true) => {
            let r2 = ask_expr(g, Rule::Expr, r1.1, Arg::Nothing);
            match r2.0 {
                Ok(m) => {
                    let r3 = p_expect(t, r2.1, "]"@);
                    match r3.0 {
                        Ok(_) => ask_expr(
                            g,
                            Rule::PostfixRest,
                            r3.1,
                            Arg::Expr(
                                AstView::Deref(Box::new(AstView::Add(Box::new(n), Box::new(m)))),
                            ),
                        ),
                        Err(k) => (Err(k), r3.1),
                    }
                },
                Err(k) => (Err(k), r2.1),
            }
        },
        Ok(false) => {
            let r4 = p_consume(t, i, "++"@);
            match r4.0 {
                Err(k) => (Err(k), r4.1),
                Ok(true) => ask_expr(g, Rule::PostfixRest, r4.1, Arg::Expr(AstView::Sub(
                        Box::new(
                            AstView::Assign(
                                Box::new(n),
                                Box::new(AstView::Add(Box::new(n), Box::new(AstView::Num(1)))),
                            ),
                        ),
                        Box::new(AstView::Num(1)),
                    ))),
                Ok(false) => {
                    let r5 = p_consume(t, i, "--"@);
                    match r5.0 {
                        Err(k) => (Err(k), r5.1),
                        Ok(true) => ask_expr(g, Rule::PostfixRest, r5.1, Arg::Expr(AstView::Add(
                                Box::new(
                                    AstView::Assign(
                                        Box::new(n),
                                        Box::new(
                                            AstView::Sub(Box::new(n), Box::new(AstView::Num(1))),
                                        ),
                                    ),
                                ),
                                Box::new(AstView::Num(1)),
                            ))),
                        Ok(false) => {
                            let r6 = p_consume(t, i, "."@);
                            match r6.0 {
                                Err(k) => (Err(k), r6.1),
                                Ok(true) => {
                                    let r7 = p_expect_ident(t, r6.1);
                                    match r7.0 {
                                        Ok(name) => ask_expr(
                                            g,
                                            Rule::PostfixRest,
                                            r7.1,
                                            Arg::Expr(AstView::Dot(Box::new(n), name)),
                                        ),
                                        Err(k) => (Err(k), r7.1),
                                    }
                                },
                                Ok(false) => (Ok(n), i),
                            }
                        },
                    }
                },
            }
        },
    }
}

/// primary     = "(" "{" compound_stmt ")"
///             | "(" expr ")"
///             | ident "(" fun_args
///             | ident
///             | num
///             | str
pub open spec fn rule_primary(
    t: Seq<Lexeme>,
    i: int,
    g: Rules,
) -> (Result<AstView, ErrorKind>, int) {
    let r1 = p_consume(t, i, "("@);
    match r1.0 {
        Err(k) => (Err(k), r1.1),
        Ok(true) => {
            let r2 = p_consume(t, r1.1, "{"@);
            match r2.0 {
                Err(k) => (Err(k), r2.1),
                Ok(true) => {
                    let r3 = ask_stmts(g, Rule::CompoundStmt, r2.1, Arg::Nothing);
                    match r3.0 {
                        Ok(stmts) => {
                            let r4 = p_expect(t, r3.1, ")"@);
                            match r4.0 {
                                Ok(_) => if stmts.len() == 0 {
                                    (Err(ErrorKind::EmptyStatementExpression), r4.1)
                                } else {
                                    (Ok(AstView::Block(stmts)), r4.1)
                                },
                                Err(k) => (Err(k), r4.1),
                            }
                        },
                        Err(k) => (Err(k), r3.1),
                    }
                },
                Ok(false) => {
                    let r5 = ask_expr(g, Rule::Expr, r1.1, Arg::Nothing);
                    match r5.0 {
                        Ok(n) => {
                            let r6 = p_expect(t, r5.1, ")"@);
                            match r6.0 {
                                Ok(_) => (Ok(n), r6.1),
                                Err(k) => (Err(k), r6.1),
                            }
                        },
                        Err(k) => (Err(k), r5.1),
                    }
                },
            }
        },
        Ok(false) => {
            let r8 = p_consume_ident(t, i);
            match r8.0 {
                Err(k) => (Err(k), r8.1),
                Ok(Some(name)) => {
                    let r9 = p_consume(t, r8.1, "("@);
                    match r9.0 {
                        Err(k) => (Err(k), r9.1),
                        Ok(true) => {
                            let r10 = ask_exprs(g, Rule::FunArgs, r9.1, Arg::Nothing);
                            match r10.0 {
                                Ok(args) => (Ok(AstView::Call(name, args)), r10.1),
                                Err(k) => (Err(k), r10.1),
                            }
                        },
                        Ok(false) => (Ok(AstView::Ident(name)), r8.1),
                    }
                },
                Ok(None) => {
                    let r9 = p_consume_num(t, i);
                    match r9.0 {
                        Err(k) => (Err(k), r9.1),
                        Ok(Some(n)) => (Ok(AstView::Num(n)), r9.1),
                        Ok(None) => {
                            let r10 = p_consume_str(t, i);
                            match r10.0 {
                                Err(k) => (Err(k), r10.1),
                                Ok(Some(s)) => (Ok(AstView::Str(s)), r10.1),
                                Ok(None) => (Err(ErrorKind::ExpectedExpression), i),
                            }
                        },
                    }
                },
            }
        },
    }
}

/// fun_args    = (expr ("," expr)*)? ")"
pub open spec fn rule_fun_args(
    t: Seq<Lexeme>,
    i: int,
    g: Rules,
) -> (Result<Seq<AstView>, ErrorKind>, int) {
    let r0 = p_consume(t, i, ")"@);
    match r0.0 {
        Err(k) => (Err(k), r0.1),
        Ok(true) => (Ok(Seq::empty()), r0.1),
        Ok(false) => {
            let r1 = ask_expr(g, Rule::Expr, i, Arg::Nothing);
            match r1.0 {
                Ok(x) => ask_exprs(g, Rule::FunArgsRest, r1.1, Arg::Exprs(seq![x])),
                Err(k) => (Err(k), r1.1),
            }
        },
    }
}

/// The rest of `fun_args`, where `acc` is what was read of it so far.
pub open spec fn rule_fun_args_rest(
    t: Seq<Lexeme>,
    i: int,
    acc: Seq<AstView>,
    g: Rules,
) -> (Result<Seq<AstView>, ErrorKind>, int) {
    let r0 = p_consume(t, i, ")"@);
    match r0.0 {
        Err(k) => (Err(k), r0.1),
        Ok(true) => (Ok(acc), r0.1),
        Ok(false) => {
            let r1 = p_expect(t, i, ","@);
            match r1.0 {
                Ok(_) => {
                    let r2 = ask_expr(g, Rule::Expr, r1.1, Arg::Nothing);
                    match r2.0 {
                        Ok(x) => ask_exprs(g, Rule::FunArgsRest, r2.1, Arg::Exprs(acc.push(x))),
                        Err(k) => (Err(k), r2.1),
                    }
                },
                Err(k) => (Err(k), r1.1),
            }
        },
    }
}

/// Whether the rule `k2` at `j` may be asked for by the rule `k` at `i`: it
/// stands further on in the list of `len` tokens, or at the same place with a
/// lower rank.
pub open spec fn below(len: nat, k: Rule, i: int, k2: Rule, j: int) -> bool {
    (i < j && j <= len) || (j == i && k2.rank() < k.rank())
}

/// What the rule `k` reads in the tokens `t` from `i` on, given `a`. A rule
/// that asks for one that does not stand below it gets an error: no rule
/// of the grammar does.
pub open spec fn derive(t: Seq<Lexeme>, k: Rule, i: int, a: Arg) -> Answer
    decreases t.len() - i, k.rank(),
{
    let g = |k2: Rule, j: int, a2: Arg|
        if below(t.len(), k, i, k2, j) {
            derive(t, k2, j, a2)
        } else {
            (Err(ErrorKind::ExpectedExpression), j)
        };
    match k {
        Rule::Toplevel => pack_toplevels(rule_toplevel(t, i, g)),
        Rule::FunBody => match a {
            Arg::Type(ty) => pack_toplevel(rule_fun_body(t, i, ty, g)),
            _ => (Err(ErrorKind::ExpectedExpression), i),
        },
        Rule::Declspec => pack_type(rule_declspec(t, i, g)),
        Rule::StructDecl => pack_nameds(rule_struct_decl(t, i, g)),
        Rule::StructMembers => match a {
            Arg::Nameds(acc) => pack_nameds(rule_struct_members(t, i, acc, g)),
            _ => (Err(ErrorKind::ExpectedExpression), i),
        },
        Rule::StructMem => pack_nameds(rule_struct_mem(t, i, g)),
        Rule::Declarators => match a {
            Arg::Type(ty) => pack_nameds(rule_declarators(t, i, ty, g)),
            _ => (Err(ErrorKind::ExpectedExpression), i),
        },
        Rule::DeclaratorsRest => match a {
            Arg::TypeNameds(ty, acc) => pack_nameds(rule_declarators_rest(t, i, ty, acc, g)),
            _ => (Err(ErrorKind::ExpectedExpression), i),
        },
        Rule::Declarator => match a {
            Arg::Type(ty) => pack_named(rule_declarator(t, i, ty, g)),
            _ => (Err(ErrorKind::ExpectedExpression), i),
        },
        Rule::Stars => match a {
            Arg::Type(ty) => pack_type(rule_stars(t, i, ty, g)),
            _ => (Err(ErrorKind::ExpectedExpression), i),
        },
        Rule::TypeSuffix => match a {
            Arg::Type(ty) => pack_type(rule_type_suffix(t, i, ty, g)),
            _ => (Err(ErrorKind::ExpectedExpression), i),
        },
        Rule::FunParams => pack_nameds(rule_fun_params(t, i, g)),
        Rule::FunParamsRest => match a {
            Arg::Nameds(acc) => pack_nameds(rule_fun_params_rest(t, i, acc, g)),
            _ => (Err(ErrorKind::ExpectedExpression), i),
        },
        Rule::Param => pack_named(rule_param(t, i, g)),
        Rule::Decllist => match a {
            Arg::Type(ty) => pack_decls(rule_decllist(t, i, ty, g)),
            _ => (Err(ErrorKind::ExpectedExpression), i),
        },
        Rule::DecllistRest => match a {
            Arg::TypeDecls(ty, acc) => pack_decls(rule_decllist_rest(t, i, ty, acc, g)),
            _ => (Err(ErrorKind::ExpectedExpression), i),
        },
        Rule::Declitem => match a {
            Arg::Type(ty) => pack_decl(rule_declitem(t, i, ty, g)),
            _ => (Err(ErrorKind::ExpectedExpression), i),
        },
        Rule::CompoundStmt => pack_stmts(rule_compound_stmt(t, i, g)),
        Rule::Stmts => match a {
            Arg::Stmts(acc) => pack_stmts(rule_stmts(t, i, acc, g)),
            _ => (Err(ErrorKind::ExpectedExpression), i),
        },
        Rule::Stmt => pack_stmt(rule_stmt(t, i, g)),
        Rule::If => pack_stmt(rule_if(t, i, g)),
        Rule::For => pack_stmt(rule_for(t, i, g)),
        Rule::While => pack_stmt(rule_while(t, i, g)),
        Rule::SimpleStmt => pack_stmt(rule_simple_stmt(t, i, g)),
        Rule::OptExpr => pack_opt_expr(rule_opt_expr(t, i, g)),
        Rule::Expr => pack_expr(rule_expr(t, i, g)),
        Rule::Ternary => pack_expr(rule_ternary(t, i, g)),
        Rule::Assign => pack_expr(rule_assign(t, i, g)),
        Rule::Equality => pack_expr(rule_equality(t, i, g)),
        Rule::EqualityImpl => match a {
            Arg::Expr(n) => pack_expr(rule_equality_impl(t, i, n, g)),
            _ => (Err(ErrorKind::ExpectedExpression), i),
        },
        Rule::Relational => pack_expr(rule_relational(t, i, g)),
        Rule::RelationalImpl => match a {
            Arg::Expr(n) => pack_expr(rule_relational_impl(t, i, n, g)),
            _ => (Err(ErrorKind::ExpectedExpression), i),
        },
        Rule::Add => pack_expr(rule_add(t, i, g)),
        Rule::AddImpl => match a {
            Arg::Expr(n) => pack_expr(rule_add_impl(t, i, n, g)),
            _ => (Err(ErrorKind::ExpectedExpression), i),
        },
        Rule::Mul => pack_expr(rule_mul(t, i, g)),
        Rule::MulImpl => match a {
            Arg::Expr(n) => pack_expr(rule_mul_impl(t, i, n, g)),
            _ => (Err(ErrorKind::ExpectedExpression), i),
        },
        Rule::Unary => pack_expr(rule_unary(t, i, g)),
        Rule::Cast => pack_expr(rule_cast(t, i, g)),
        Rule::Postfix => pack_expr(rule_postfix(t, i, g)),
        Rule::PostfixRest => match a {
            Arg::Expr(n) => pack_expr(rule_postfix_rest(t, i, n, g)),
            _ => (Err(ErrorKind::ExpectedExpression), i),
        },
        Rule::Primary => pack_expr(rule_primary(t, i, g)),
        Rule::FunArgs => pack_exprs(rule_fun_args(t, i, g)),
        Rule::FunArgsRest => match a {
            Arg::Exprs(acc) => pack_exprs(rule_fun_args_rest(t, i, acc, g)),
            _ => (Err(ErrorKind::ExpectedExpression), i),
        },
    }
}

/// The grammar over the tokens `t`: what each rule reads at each place.
pub open spec fn grammar(t: Seq<Lexeme>) -> Rules {
    |k: Rule, j: int, a: Arg| derive(t, k, j, a)
}

/// What the rule `toplevel` reads in `t` from `i` on.
pub open spec fn p_toplevel(t: Seq<Lexeme>, i: int) -> (Result<Seq<TopLevelView>, ErrorKind>, int) {
    ask_toplevels(grammar(t), Rule::Toplevel, i, Arg::Nothing)
}

/// What the rule `fun_body` reads in `t` from `i` on.
pub open spec fn p_fun_body(
    t: Seq<Lexeme>,
    i: int,
    ty: TypeView,
) -> (Result<TopLevelView, ErrorKind>, int) {
    ask_toplevel(grammar(t), Rule::FunBody, i, Arg::Type(ty))
}

/// What the rule `declspec` reads in `t` from `i` on.
pub open spec fn p_declspec(t: Seq<Lexeme>, i: int) -> (Result<TypeView, ErrorKind>, int) {
    ask_type(grammar(t), Rule::Declspec, i, Arg::Nothing)
}

/// What the rule `struct_decl` reads in `t` from `i` on.
pub open spec fn p_struct_decl(
    t: Seq<Lexeme>,
    i: int,
) -> (Result<Seq<(TypeView, Seq<char>)>, ErrorKind>, int) {
    ask_nameds(grammar(t), Rule::StructDecl, i, Arg::Nothing)
}

/// What the rule `struct_members` reads in `t` from `i` on.
pub open spec fn p_struct_members(
    t: Seq<Lexeme>,
    i: int,
    acc: Seq<(TypeView, Seq<char>)>,
) -> (Result<Seq<(TypeView, Seq<char>)>, ErrorKind>, int) {
    ask_nameds(grammar(t), Rule::StructMembers, i, Arg::Nameds(acc))
}

/// What the rule `struct_mem` reads in `t` from `i` on.
pub open spec fn p_struct_mem(
    t: Seq<Lexeme>,
    i: int,
) -> (Result<Seq<(TypeView, Seq<char>)>, ErrorKind>, int) {
    ask_nameds(grammar(t), Rule::StructMem, i, Arg::Nothing)
}

/// What the rule `declarators` reads in `t` from `i` on.
pub open spec fn p_declarators(
    t: Seq<Lexeme>,
    i: int,
    ty: TypeView,
) -> (Result<Seq<(TypeView, Seq<char>)>, ErrorKind>, int) {
    ask_nameds(grammar(t), Rule::Declarators, i, Arg::Type(ty))
}

/// What the rule `declarators_rest` reads in `t` from `i` on.
pub open spec fn p_declarators_rest(
    t: Seq<Lexeme>,
    i: int,
    ty: TypeView,
    acc: Seq<(TypeView, Seq<char>)>,
) -> (Result<Seq<(TypeView, Seq<char>)>, ErrorKind>, int) {
    ask_nameds(grammar(t), Rule::DeclaratorsRest, i, Arg::TypeNameds(ty, acc))
}

/// What the rule `declarator` reads in `t` from `i` on.
pub open spec fn p_declarator(
    t: Seq<Lexeme>,
    i: int,
    ty: TypeView,
) -> (Result<(TypeView, Seq<char>), ErrorKind>, int) {
    ask_named(grammar(t), Rule::Declarator, i, Arg::Type(ty))
}

/// What the rule `stars` reads in `t` from `i` on.
pub open spec fn p_stars(
    t: Seq<Lexeme>,
    i: int,
    ty: TypeView,
) -> (Result<TypeView, ErrorKind>, int) {
    ask_type(grammar(t), Rule::Stars, i, Arg::Type(ty))
}

/// What the rule `type_suffix` reads in `t` from `i` on.
pub open spec fn p_type_suffix(
    t: Seq<Lexeme>,
    i: int,
    ty: TypeView,
) -> (Result<TypeView, ErrorKind>, int) {
    ask_type(grammar(t), Rule::TypeSuffix, i, Arg::Type(ty))
}

/// What the rule `fun_params` reads in `t` from `i` on.
pub open spec fn p_fun_params(
    t: Seq<Lexeme>,
    i: int,
) -> (Result<Seq<(TypeView, Seq<char>)>, ErrorKind>, int) {
    ask_nameds(grammar(t), Rule::FunParams, i, Arg::Nothing)
}

/// What the rule `fun_params_rest` reads in `t` from `i` on.
pub open spec fn p_fun_params_rest(
    t: Seq<Lexeme>,
    i: int,
    acc: Seq<(TypeView, Seq<char>)>,
) -> (Result<Seq<(TypeView, Seq<char>)>, ErrorKind>, int) {
    ask_nameds(grammar(t), Rule::FunParamsRest, i, Arg::Nameds(acc))
}

/// What the rule `param` reads in `t` from `i` on.
pub open spec fn p_param(
    t: Seq<Lexeme>,
    i: int,
) -> (Result<(TypeView, Seq<char>), ErrorKind>, int) {
    ask_named(grammar(t), Rule::Param, i, Arg::Nothing)
}

/// What the rule `decllist` reads in `t` from `i` on.
pub open spec fn p_decllist(
    t: Seq<Lexeme>,
    i: int,
    ty: TypeView,
) -> (Result<Seq<DeclView>, ErrorKind>, int) {
    ask_decls(grammar(t), Rule::Decllist, i, Arg::Type(ty))
}

/// What the rule `decllist_rest` reads in `t` from `i` on.
pub open spec fn p_decllist_rest(
    t: Seq<Lexeme>,
    i: int,
    ty: TypeView,
    acc: Seq<DeclView>,
) -> (Result<Seq<DeclView>, ErrorKind>, int) {
    ask_decls(grammar(t), Rule::DecllistRest, i, Arg::TypeDecls(ty, acc))
}

/// What the rule `declitem` reads in `t` from `i` on.
pub open spec fn p_declitem(
    t: Seq<Lexeme>,
    i: int,
    ty: TypeView,
) -> (Result<DeclView, ErrorKind>, int) {
    ask_decl(grammar(t), Rule::Declitem, i, Arg::Type(ty))
}

/// What the rule `compound_stmt` reads in `t` from `i` on.
pub open spec fn p_compound_stmt(
    t: Seq<Lexeme>,
    i: int,
) -> (Result<Seq<StmtView>, ErrorKind>, int) {
    ask_stmts(grammar(t), Rule::CompoundStmt, i, Arg::Nothing)
}

/// What the rule `stmts` reads in `t` from `i` on.
pub open spec fn p_stmts(
    t: Seq<Lexeme>,
    i: int,
    acc: Seq<StmtView>,
) -> (Result<Seq<StmtView>, ErrorKind>, int) {
    ask_stmts(grammar(t), Rule::Stmts, i, Arg::Stmts(acc))
}

/// What the rule `stmt` reads in `t` from `i` on.
pub open spec fn p_stmt(t: Seq<Lexeme>, i: int) -> (Result<StmtView, ErrorKind>, int) {
    ask_stmt(grammar(t), Rule::Stmt, i, Arg::Nothing)
}

/// What the rule `if` reads in `t` from `i` on.
pub open spec fn p_if(t: Seq<Lexeme>, i: int) -> (Result<StmtView, ErrorKind>, int) {
    ask_stmt(grammar(t), Rule::If, i, Arg::Nothing)
}

/// What the rule `for` reads in `t` from `i` on.
pub open spec fn p_for(t: Seq<Lexeme>, i: int) -> (Result<StmtView, ErrorKind>, int) {
    ask_stmt(grammar(t), Rule::For, i, Arg::Nothing)
}

/// What the rule `while` reads in `t` from `i` on.
pub open spec fn p_while(t: Seq<Lexeme>, i: int) -> (Result<StmtView, ErrorKind>, int) {
    ask_stmt(grammar(t), Rule::While, i, Arg::Nothing)
}

/// What the rule `simple_stmt` reads in `t` from `i` on.
pub open spec fn p_simple_stmt(t: Seq<Lexeme>, i: int) -> (Result<StmtView, ErrorKind>, int) {
    ask_stmt(grammar(t), Rule::SimpleStmt, i, Arg::Nothing)
}

/// What the rule `opt_expr` reads in `t` from `i` on.
pub open spec fn p_opt_expr(t: Seq<Lexeme>, i: int) -> (Option<AstView>, int) {
    ask_opt_expr(grammar(t), Rule::OptExpr, i, Arg::Nothing)
}

/// What the rule `expr` reads in `t` from `i` on.
pub open spec fn p_expr(t: Seq<Lexeme>, i: int) -> (Result<AstView, ErrorKind>, int) {
    ask_expr(grammar(t), Rule::Expr, i, Arg::Nothing)
}

/// What the rule `ternary` reads in `t` from `i` on.
pub open spec fn p_ternary(t: Seq<Lexeme>, i: int) -> (Result<AstView, ErrorKind>, int) {
    ask_expr(grammar(t), Rule::Ternary, i, Arg::Nothing)
}

/// What the rule `assign` reads in `t` from `i` on.
pub open spec fn p_assign(t: Seq<Lexeme>, i: int) -> (Result<AstView, ErrorKind>, int) {
    ask_expr(grammar(t), Rule::Assign, i, Arg::Nothing)
}

/// What the rule `equality` reads in `t` from `i` on.
pub open spec fn p_equality(t: Seq<Lexeme>, i: int) -> (Result<AstView, ErrorKind>, int) {
    ask_expr(grammar(t), Rule::Equality, i, Arg::Nothing)
}

/// What the rule `equality_impl` reads in `t` from `i` on.
pub open spec fn p_equality_impl(
    t: Seq<Lexeme>,
    i: int,
    n: AstView,
) -> (Result<AstView, ErrorKind>, int) {
    ask_expr(grammar(t), Rule::EqualityImpl, i, Arg::Expr(n))
}

/// What the rule `relational` reads in `t` from `i` on.
pub open spec fn p_relational(t: Seq<Lexeme>, i: int) -> (Result<AstView, ErrorKind>, int) {
    ask_expr(grammar(t), Rule::Relational, i, Arg::Nothing)
}

/// What the rule `relational_impl` reads in `t` from `i` on.
pub open spec fn p_relational_impl(
    t: Seq<Lexeme>,
    i: int,
    n: AstView,
) -> (Result<AstView, ErrorKind>, int) {
    ask_expr(grammar(t), Rule::RelationalImpl, i, Arg::Expr(n))
}

/// What the rule `add` reads in `t` from `i` on.
pub open spec fn p_add(t: Seq<Lexeme>, i: int) -> (Result<AstView, ErrorKind>, int) {
    ask_expr(grammar(t), Rule::Add, i, Arg::Nothing)
}

/// What the rule `add_impl` reads in `t` from `i` on.
pub open spec fn p_add_impl(
    t: Seq<Lexeme>,
    i: int,
    n: AstView,
) -> (Result<AstView, ErrorKind>, int) {
    ask_expr(grammar(t), Rule::AddImpl, i, Arg::Expr(n))
}

/// What the rule `mul` reads in `t` from `i` on.
pub open spec fn p_mul(t: Seq<Lexeme>, i: int) -> (Result<AstView, ErrorKind>, int) {
    ask_expr(grammar(t), Rule::Mul, i, Arg::Nothing)
}

/// What the rule `mul_impl` reads in `t` from `i` on.
pub open spec fn p_mul_impl(
    t: Seq<Lexeme>,
    i: int,
    n: AstView,
) -> (Result<AstView, ErrorKind>, int) {
    ask_expr(grammar(t), Rule::MulImpl, i, Arg::Expr(n))
}

/// What the rule `unary` reads in `t` from `i` on.
pub open spec fn p_unary(t: Seq<Lexeme>, i: int) -> (Result<AstView, ErrorKind>, int) {
    ask_expr(grammar(t), Rule::Unary, i, Arg::Nothing)
}

/// What the rule `cast` reads in `t` from `i` on.
pub open spec fn p_cast(t: Seq<Lexeme>, i: int) -> (Result<AstView, ErrorKind>, int) {
    ask_expr(grammar(t), Rule::Cast, i, Arg::Nothing)
}

/// What the rule `postfix` reads in `t` from `i` on.
pub open spec fn p_postfix(t: Seq<Lexeme>, i: int) -> (Result<AstView, ErrorKind>, int) {
    ask_expr(grammar(t), Rule::Postfix, i, Arg::Nothing)
}

/// What the rule `postfix_rest` reads in `t` from `i` on.
pub open spec fn p_postfix_rest(
    t: Seq<Lexeme>,
    i: int,
    n: AstView,
) -> (Result<AstView, ErrorKind>, int) {
    ask_expr(grammar(t), Rule::PostfixRest, i, Arg::Expr(n))
}

/// What the rule `primary` reads in `t` from `i` on.
pub open spec fn p_primary(t: Seq<Lexeme>, i: int) -> (Result<AstView, ErrorKind>, int) {
    ask_expr(grammar(t), Rule::Primary, i, Arg::Nothing)
}

/// What the rule `fun_args` reads in `t` from `i` on.
pub open spec fn p_fun_args(t: Seq<Lexeme>, i: int) -> (Result<Seq<AstView>, ErrorKind>, int) {
    ask_exprs(grammar(t), Rule::FunArgs, i, Arg::Nothing)
}

/// What the rule `fun_args_rest` reads in `t` from `i` on.
pub open spec fn p_fun_args_rest(
    t: Seq<Lexeme>,
    i: int,
    acc: Seq<AstView>,
) -> (Result<Seq<AstView>, ErrorKind>, int) {
    ask_exprs(grammar(t), Rule::FunArgsRest, i, Arg::Exprs(acc))
}

/// program     = toplevel* eof
///
/// `acc` is what was read of the program so far. An item takes at least one
/// token.
pub open spec fn p_program(t: Seq<Lexeme>, i: int, acc: Seq<TopLevelView>) -> Result<
    Seq<TopLevelView>,
    ErrorKind,
>
    decreases t.len() - i, 31nat,
{
    match p_eof(t, i) {
        Err(k) => Err(k),
        Ok(true) => Ok(acc),
        Ok(false) => {
            let r = p_toplevel(t, i);
            match r.0 {
                Ok(items) => if i < r.1 <= t.len() {
                    p_program(t, r.1, acc + items)
                } else {
                    Err(ErrorKind::ExpectedTypeName)
                },
                Err(k) => Err(k),
            }
        },
    }
}

// ----- parsing -----

/// declspec    = "char" | "int" | "struct" ident? struct_decl?
fn parse_declspec(it: &mut Tokenizer) -> (r: Expected<Type>)
    requires
        old(it).wf(),
    ensures
        parsed(*old(it), *final(it), res_type(r), p_declspec(old(it).items(), old(it).pos())),
        r is Ok ==> final(it).pos() > old(it).pos(),
    decreases old(it).remaining(), 4nat,
{
    if consume_keyword(it, "int")? {
        return Ok(Type::Int);
    }
    if consume_keyword(it, "char")? {
        return Ok(Type::Char);
    }
    if consume_keyword(it, "struct")? {
        let name = consume_ident(it)?;
        let body = match it.current() {
            Ok(Token::Punct(w)) => {
                if str_eq(w.as_str(), "{") {
                    let mems = parse_struct_decl(it)?;
                    let ghost listed = nameds_view(mems@);
                    let (mem_tys, mem_names) = unzip(mems);
                    proof {
                        let shown = Type::Struct(name, Some((mem_tys, mem_names)))@;
                        assert(shown->Struct_1.unwrap().0 =~= unzipped(listed).0);
                        assert(shown->Struct_1.unwrap().1 =~= unzipped(listed).1);
                    }
                    Some((mem_tys, mem_names))
                } else {
                    None
                }
            },
            Ok(_) => None,
            Err(k) => {
                return Err(k);
            },
        };
        return match Type::new_struct(name, body) {
            Some(ty) => Ok(ty),
            None => Err(ErrorKind::StructUnnamed),
        };
    }
    Err(ErrorKind::ExpectedTypeName)
}

/// struct_decl = "{" struct_mem* "}"
fn parse_struct_decl(it: &mut Tokenizer) -> (r: Expected<Vec<(Type, String)>>)
    requires
        old(it).wf(),
    ensures
        parsed(*old(it), *final(it), res_nameds(r), p_struct_decl(old(it).items(), old(it).pos())),
        r is Ok ==> final(it).pos() > old(it).pos(),
    decreases old(it).remaining(), 3nat,
{
    expect(it, "{")?;
    let mut mems: Vec<(Type, String)> = Vec::new();
    assert(nameds_view(mems@) =~= Seq::empty());
    loop
        invariant
            it.wf(),
            it.items() == old(it).items(),
            it.pos() > old(it).pos(),
            p_struct_decl(old(it).items(), old(it).pos()) == p_struct_members(
                it.items(),
                it.pos(),
                nameds_view(mems@),
            ),
        decreases it.remaining(),
    {
        if consume(it, "}")? {
            return Ok(mems);
        }
        let mem = parse_struct_mem(it)?;
        let ghost before = nameds_view(mems@);
        let ghost more = nameds_view(mem@);
        let mut mem = mem;
        mems.append(&mut mem);
        assert(nameds_view(mems@) =~= before + more);
    }
}

/// struct_mem  = declspec declarators
fn parse_struct_mem(it: &mut Tokenizer) -> (r: Expected<Vec<(Type, String)>>)
    requires
        old(it).wf(),
    ensures
        parsed(*old(it), *final(it), res_nameds(r), p_struct_mem(old(it).items(), old(it).pos())),
        r is Ok ==> final(it).pos() > old(it).pos(),
    decreases old(it).remaining(), 5nat,
{
    let ty = parse_declspec(it)?;
    parse_declarators(it, ty)
}

/// declarator  = "*"* ident type_suffix
fn parse_declarator(it: &mut Tokenizer, ty: Type) -> (r: Expected<(Type, String)>)
    requires
        old(it).wf(),
    ensures
        parsed(
            *old(it),
            *final(it),
            res_named(r),
            p_declarator(old(it).items(), old(it).pos(), ty@),
        ),
        r is Ok ==> final(it).pos() > old(it).pos(),
    decreases old(it).remaining(), 2nat,
{
    let mut cur = ty;
    loop
        invariant_except_break
            p_stars(old(it).items(), old(it).pos(), ty@) == p_stars(it.items(), it.pos(), cur@),
        invariant
            it.wf(),
            it.items() == old(it).items(),
            it.pos() >= old(it).pos(),
        ensures
            p_stars(old(it).items(), old(it).pos(), ty@) == (
                Ok::<TypeView, ErrorKind>(cur@),
                it.pos(),
            ),
        decreases it.remaining(),
    {
        if !consume(it, "*")? {
            break ;
        }
        cur = Type::Pointer(Box::new(cur));
    }
    let name = expect_ident(it)?;
    let full = parse_type_suffix(it, cur)?;
    Ok((full, name))
}

/// compound_stmt = stmt* "}"
fn parse_compound_stmt(it: &mut Tokenizer) -> (r: Expected<Vec<Stmt>>)
    requires
        old(it).wf(),
    ensures
        parsed(*old(it), *final(it), res_stmts(r), p_compound_stmt(old(it).items(), old(it).pos())),
        r is Ok ==> final(it).pos() > old(it).pos(),
    decreases old(it).remaining(), 29nat,
{
    let mut stmts: Vec<Stmt> = Vec::new();
    assert(stmts_view(stmts@) =~= Seq::empty());
    loop
        invariant
            it.wf(),
            it.items() == old(it).items(),
            it.pos() >= old(it).pos(),
            p_compound_stmt(old(it).items(), old(it).pos()) == p_stmts(
                it.items(),
                it.pos(),
                stmts_view(stmts@),
            ),
        decreases it.remaining(),
    {
        if consume(it, "}")? {
            return Ok(stmts);
        }
        let stmt = parse_stmt(it)?;
        let ghost before = stmts_view(stmts@);
        stmts.push(stmt);
        assert(stmts_view(stmts@) =~= before.push(stmt@));
    }
}

/// An expression where one may stand. Where none is read, the cursor is
/// left where the attempt ended.
fn parse_opt_expr(it: &mut Tokenizer) -> (r: Option<AST>)
    requires
        old(it).wf(),
    ensures
        final(it).wf(),
        final(it).items() == old(it).items(),
        final(it).pos() >= old(it).pos(),
        (opt_view(r), final(it).pos()) == p_opt_expr(old(it).items(), old(it).pos()),
    decreases old(it).remaining(), 21nat,
{
    match parse_expr(it) {
        Ok(n) => Some(n),
        Err(_) => None,
    }
}

/// What follows `if`: "(" expr ")" stmt ("else" stmt)?
fn parse_if(it: &mut Tokenizer) -> (r: Expected<Stmt>)
    requires
        old(it).wf(),
    ensures
        parsed(*old(it), *final(it), res_stmt(r), p_if(old(it).items(), old(it).pos())),
        r is Ok ==> final(it).pos() > old(it).pos(),
    decreases old(it).remaining(), 26nat,
{
    expect(it, "(")?;
    let cond = parse_expr(it)?;
    expect(it, ")")?;
    let then_stmt = parse_stmt(it)?;
    if consume_keyword(it, "else")? {
        let stmt = parse_stmt(it)?;
        Ok(Stmt::IfElse(cond, Box::new(then_stmt), Some(Box::new(stmt))))
    } else {
        Ok(Stmt::IfElse(cond, Box::new(then_stmt), None))
    }
}

/// What follows `for`: "(" expr? ";" expr? ";" expr? ")" stmt
fn parse_for(it: &mut Tokenizer) -> (r: Expected<Stmt>)
    requires
        old(it).wf(),
    ensures
        parsed(*old(it), *final(it), res_stmt(r), p_for(old(it).items(), old(it).pos())),
        r is Ok ==> final(it).pos() > old(it).pos(),
    decreases old(it).remaining(), 26nat,
{
    expect(it, "(")?;
    let n1 = parse_opt_expr(it);
    expect(it, ";")?;
    let n2 = parse_opt_expr(it);
    expect(it, ";")?;
    let n3 = parse_opt_expr(it);
    expect(it, ")")?;
    let stmt = parse_stmt(it)?;
    Ok(Stmt::For(n1, n2, n3, Box::new(stmt)))
}

/// What follows `while`: "(" expr ")" stmt
fn parse_while(it: &mut Tokenizer) -> (r: Expected<Stmt>)
    requires
        old(it).wf(),
    ensures
        parsed(*old(it), *final(it), res_stmt(r), p_while(old(it).items(), old(it).pos())),
        r is Ok ==> final(it).pos() > old(it).pos(),
    decreases old(it).remaining(), 26nat,
{
    expect(it, "(")?;
    let n2 = parse_opt_expr(it);
    expect(it, ")")?;
    let stmt = parse_stmt(it)?;
    proof {
        assert(opt_view(None) == None::<AstView>);
    }
    Ok(Stmt::For(None, n2, None, Box::new(stmt)))
}

/// stmt        = declspec decllist
///             | "if" "(" expr ")" stmt ("else" stmt)?
///             | "for" "(" expr? ";" expr? ";" expr? ")" stmt
///             | "while" "(" expr ")" stmt
///             | "break" ";"
///             | "continue" ";"
///             | "return" expr ";"
///             | "{" compound_stmt
///             | ";"
///             | expr ";"
fn parse_stmt(it: &mut Tokenizer) -> (r: Expected<Stmt>)
    requires
        old(it).wf(),
    ensures
        parsed(*old(it), *final(it), res_stmt(r), p_stmt(old(it).items(), old(it).pos())),
        r is Ok ==> final(it).pos() > old(it).pos(),
    decreases old(it).remaining(), 27nat,
{
    let mark = it.mark();
    match parse_declspec(it) {
        Ok(ty) => {
            let is_struct = defines_struct(&ty);
            let keep = ty.duplicate();
            let res = parse_decllist(it, ty)?;
            if res.len() == 0 && is_struct {
                return Ok(Stmt::StructDef(keep));
            }
            proof {
                lemma_var_def_view(res);
            }
            return Ok(Stmt::VarDef(res));
        },
        Err(_) => {
            it.reset(mark);
        },
    }
    if consume_keyword(it, "if")? {
        return parse_if(it);
    }
    if consume_keyword(it, "for")? {
        return parse_for(it);
    }
    if consume_keyword(it, "while")? {
        return parse_while(it);
    }
    parse_simple_stmt(it)
}

/// The statements that are no declaration and do not start with `if`,
/// `for` or `while`.
fn parse_simple_stmt(it: &mut Tokenizer) -> (r: Expected<Stmt>)
    requires
        old(it).wf(),
    ensures
        parsed(*old(it), *final(it), res_stmt(r), p_simple_stmt(old(it).items(), old(it).pos())),
        r is Ok ==> final(it).pos() > old(it).pos(),
    decreases old(it).remaining(), 26nat,
{
    if consume_keyword(it, "break")? {
        expect(it, ";")?;
        return Ok(Stmt::Break);
    }
    if consume_keyword(it, "continue")? {
        expect(it, ";")?;
        return Ok(Stmt::Cont);
    }
    if consume_keyword(it, "return")? {
        let n = parse_expr(it)?;
        expect(it, ";")?;
        return Ok(Stmt::Return(n));
    }
    if consume(it, "{")? {
        let stmts = parse_compound_stmt(it)?;
        proof {
            lemma_stmt_block_view(stmts);
        }
        return Ok(Stmt::Block(stmts));
    }
    if consume(it, ";")? {
        let none: Vec<Stmt> = Vec::new();
        proof {
            lemma_stmt_block_view(none);
            assert(stmts_view(none@) =~= Seq::empty());
        }
        return Ok(Stmt::Block(none));
    }
    let n = parse_expr(it)?;
    expect(it, ";")?;
    Ok(Stmt::Expr(n))
}

/// The rest of `postfix`, where `n` is what was read of it so far.
fn parse_postfix_rest(it: &mut Tokenizer, n: AST) -> (r: Expected<AST>)
    requires
        old(it).wf(),
    ensures
        parsed(
            *old(it),
            *final(it),
            res_ast(r),
            p_postfix_rest(old(it).items(), old(it).pos(), n@),
        ),
    decreases old(it).remaining(), 0nat,
{
    let mut cur = n;
    loop
        invariant
            it.wf(),
            it.items() == old(it).items(),
            it.pos() >= old(it).pos(),
            p_postfix_rest(old(it).items(), old(it).pos(), n@) == p_postfix_rest(
                it.items(),
                it.pos(),
                cur@,
            ),
        decreases it.remaining(),
    {
        let ghost at = it.pos();
        let ghost was = cur@;
        if consume(it, "[")? {
            // a[i] is *(a + i)
            let m = parse_expr(it)?;
            expect(it, "]")?;
            let sum = AST::Add(Box::new(cur), Box::new(m));
            cur = AST::Deref(Box::new(sum));
            proof {
                assert(sum@ == AstView::Add(Box::new(was), Box::new(m@)));
                assert(cur@ == AstView::Deref(Box::new(sum@)));
                assert(
                    p_postfix_rest(it.items(), at, was) == p_postfix_rest(
                        it.items(),
                        it.pos(),
                        cur@,
                    )
                );
            }
        } else if consume(it, "++")? {
            // i++ is (i = i + 1) - 1
            let one = AST::Num(1);
            let sum = AST::Add(Box::new(cur.duplicate()), Box::new(one));
            let assign = AST::Assign(Box::new(cur), Box::new(sum));
            cur = AST::Sub(Box::new(assign), Box::new(AST::Num(1)));
            proof {
                assert(one@ == AstView::Num(1));
                assert(sum@ == AstView::Add(Box::new(was), Box::new(one@)));
                assert(assign@ == AstView::Assign(Box::new(was), Box::new(sum@)));
                assert(cur@ == AstView::Sub(Box::new(assign@), Box::new(AstView::Num(1))));
                assert(
                    p_postfix_rest(it.items(), at, was) == p_postfix_rest(
                        it.items(),
                        it.pos(),
                        cur@,
                    )
                );
            }
        } else if consume(it, "--")? {
            // i-- is (i = i - 1) + 1
            let one = AST::Num(1);
            let diff = AST::Sub(Box::new(cur.duplicate()), Box::new(one));
            let assign = AST::Assign(Box::new(cur), Box::new(diff));
            cur = AST::Add(Box::new(assign), Box::new(AST::Num(1)));
            proof {
                assert(one@ == AstView::Num(1));
                assert(diff@ == AstView::Sub(Box::new(was), Box::new(one@)));
                assert(assign@ == AstView::Assign(Box::new(was), Box::new(diff@)));
                assert(cur@ == AstView::Add(Box::new(assign@), Box::new(AstView::Num(1))));
                assert(
                    p_postfix_rest(it.items(), at, was) == p_postfix_rest(
                        it.items(),
                        it.pos(),
                        cur@,
                    )
                );
            }
        } else if consume(it, ".")? {
            let name = expect_ident(it)?;
            cur = AST::Dot(Box::new(cur), name);
            proof {
                assert(
                    p_postfix_rest(it.items(), at, was) == p_postfix_rest(
                        it.items(),
                        it.pos(),
                        cur@,
                    )
                );
            }
        } else {
            return Ok(cur);
        }
    }
}

/// Whether the type is a struct with a body.
fn defines_struct(ty: &Type) -> (r: bool)
    ensures
        r == defines_struct_view(ty@),
{
    matches!(ty, Type::Struct(_, Some(_)))
}

/// toplevel    = declspec fun_body
///             | declspec decllist
fn parse_toplevel(it: &mut Tokenizer) -> (r: Expected<Vec<TopLevel>>)
    requires
        old(it).wf(),
    ensures
        parsed(*old(it), *final(it), res_toplevels(r), p_toplevel(old(it).items(), old(it).pos())),
        r is Ok ==> final(it).pos() > old(it).pos(),
    decreases old(it).remaining(), 30nat,
{
    let ty = parse_declspec(it)?;
    let mark = it.mark();
    match parse_fun_body(it, ty.duplicate()) {
        Ok(fun_def) => {
            let mut res: Vec<TopLevel> = Vec::new();
            let ghost shown = fun_def@;
            res.push(fun_def);
            assert(toplevels_view(res@) =~= seq![shown]);
            Ok(res)
        },
        Err(_) => {
            it.reset(mark);
            let is_struct = defines_struct(&ty);
            let keep = ty.duplicate();
            let decls = parse_decllist(it, ty)?;
            let mut res: Vec<TopLevel> = Vec::new();
            if decls.len() == 0 && is_struct {
                let item = TopLevel::StructDef(keep);
                let ghost shown = item@;
                res.push(item);
                assert(toplevels_view(res@) =~= seq![shown]);
                return Ok(res);
            }
            let ghost all = decls_view(decls@);
            let mut decls = decls;
            let ghost mut done: int = 0;
            while decls.len() > 0
                invariant
                    0 <= done <= all.len(),
                    decls@.len() == all.len() - done,
                    res@.len() == done,
                    forall|j: int| 0 <= j < done ==> (#[trigger] res@[j])@ == decl_toplevel(all[j]),
                    forall|j: int|
                        0 <= j < decls@.len() ==> decl_view(#[trigger] decls@[j]) == all[done + j],
                decreases decls@.len(),
            {
                let ghost before = decls@;
                let (ty, name, init) = decls.remove(0);
                assert(decl_view(before[0]) == all[done]);
                assert forall|j: int| 0 <= j < decls@.len() implies decl_view(
                    #[trigger] decls@[j],
                ) == all[done + 1 + j] by {
                    assert(decls@[j] == before[j + 1]);
                }
                match ty {
                    Type::FunTy(ret_ty, param_tys, _param_names) => {
                        let item = TopLevel::FunDecl(*ret_ty, name, param_tys);
                        proof {
                            assert(item@->FunDecl_2 =~= all[done].ty->FunTy_1);
                        }
                        res.push(item);
                    },
                    _ => {
                        res.push(TopLevel::VarDef(ty, name, init));
                    },
                }
                proof {
                    done = done + 1;
                }
            }
            assert(toplevels_view(res@) =~= all.map_values(|d: DeclView| decl_toplevel(d)));
            Ok(res)
        },
    }
}

/// Parses a program: top-level items up to the end of the text. The result
/// is the program that the tokens spell, or the first error of syntax.
pub fn parse(it: Tokenizer) -> (r: Expected<Vec<TopLevel>>)
    requires
        it.wf(),
    ensures
        res_toplevels(r) == p_program(it.items(), it.pos(), Seq::empty()),
{
    let mut cur = it;
    let mut toplevels: Vec<TopLevel> = Vec::new();
    assert(toplevels_view(toplevels@) =~= Seq::empty());
    loop
        invariant
            cur.wf(),
            cur.items() == it.items(),
            p_program(it.items(), it.pos(), Seq::empty()) == p_program(
                cur.items(),
                cur.pos(),
                toplevels_view(toplevels@),
            ),
        decreases cur.remaining(),
    {
        match consume_eof(&mut cur) {
            Ok(true) => {
                return Ok(toplevels);
            },
            Ok(false) => {},
            Err(k) => {
                return Err(k);
            },
        }
        let mut toplevel = parse_toplevel(&mut cur)?;
        let ghost before = toplevels_view(toplevels@);
        let ghost more = toplevels_view(toplevel@);
        toplevels.append(&mut toplevel);
        assert(toplevels_view(toplevels@) =~= before + more);
    }
}

/// fun_body    = declarator "{" compound_stmt
fn parse_fun_body(it: &mut Tokenizer, ty: Type) -> (r: Expected<TopLevel>)
    requires
        old(it).wf(),
    ensures
        parsed(
            *old(it),
            *final(it),
            res_toplevel(r),
            p_fun_body(old(it).items(), old(it).pos(), ty@),
        ),
        r is Ok ==> final(it).pos() > old(it).pos(),
    decreases old(it).remaining(), 29nat,
{
    let decl = parse_declarator(it, ty)?;
    let ghost shown = named_view(decl);
    let (ty, name) = decl;
    match ty {
        Type::FunTy(ret_ty, param_tys, param_names) => {
            expect(it, "{")?;
            let body = parse_compound_stmt(it)?;
            let r = TopLevel::FunDef(*ret_ty, name, param_tys, param_names, body);
            proof {
                assert(toplevel_view(r)->FunDef_2 =~= shown.0->FunTy_1);
                assert(toplevel_view(r)->FunDef_3 =~= shown.0->FunTy_2);
            }
            Ok(r)
        },
        _ => Err(ErrorKind::DeclaratorNotFunction),
    }
}

/// declitem    = declarator ("=" expr)?
fn parse_declitem(it: &mut Tokenizer, ty: Type) -> (r: Expected<(Type, String, Option<AST>)>)
    requires
        old(it).wf(),
    ensures
        parsed(*old(it), *final(it), res_decl(r), p_declitem(old(it).items(), old(it).pos(), ty@)),
        r is Ok ==> final(it).pos() > old(it).pos(),
    decreases old(it).remaining(), 25nat,
{
    let decl = parse_declarator(it, ty)?;
    let (ty, name) = decl;
    if matches!(&ty, Type::FunTy(..)) {
        // a function declaration
        Ok((ty, name, None))
    } else {
        // a variable definition
        if consume(it, "=")? {
            let init = parse_expr(it)?;
            Ok((ty, name, Some(init)))
        } else {
            Ok((ty, name, None))
        }
    }
}

/// param       = declspec declarator
fn parse_param(it: &mut Tokenizer) -> (r: Expected<(Type, String)>)
    requires
        old(it).wf(),
    ensures
        parsed(*old(it), *final(it), res_named(r), p_param(old(it).items(), old(it).pos())),
        r is Ok ==> final(it).pos() > old(it).pos(),
    decreases old(it).remaining(), 5nat,
{
    let ty = parse_declspec(it)?;
    return parse_declarator(it, ty);
}

/// type_suffix = "[" num "]"
///             | "(" fun_params
///             | ε
fn parse_type_suffix(it: &mut Tokenizer, ty: Type) -> (r: Expected<Type>)
    requires
        old(it).wf(),
    ensures
        parsed(
            *old(it),
            *final(it),
            res_type(r),
            p_type_suffix(old(it).items(), old(it).pos(), ty@),
        ),
    decreases old(it).remaining(), 1nat,
{
    if consume(it, "[")? {
        let n = expect_num(it)?;
        if n > 0xffff_ffff {
            return Err(ErrorKind::ArrayTooLong);
        }
        expect(it, "]")?;
        return Ok(Type::Array(Box::new(ty), n as u32));
    }
    if consume(it, "(")? {
        let params = parse_fun_params(it)?;
        let ghost listed = nameds_view(params@);
        let (param_tys, param_names) = unzip(params);
        let r = Type::FunTy(Box::new(ty), param_tys, param_names);
        proof {
            assert(r@->FunTy_1 =~= unzipped(listed).0);
            assert(r@->FunTy_2 =~= unzipped(listed).1);
        }
        return Ok(r);
    }
    return Ok(ty);
}

/// expr        = ternary
fn parse_expr(it: &mut Tokenizer) -> (r: Expected<AST>)
    requires
        old(it).wf(),
    ensures
        parsed(*old(it), *final(it), res_ast(r), p_expr(old(it).items(), old(it).pos())),
        r is Ok ==> final(it).pos() > old(it).pos(),
    decreases old(it).remaining(), 20nat,
{
    return parse_ternary(it);
}

/// ternary     = assign ("?" expr ":" ternary)?
fn parse_ternary(it: &mut Tokenizer) -> (r: Expected<AST>)
    requires
        old(it).wf(),
    ensures
        parsed(*old(it), *final(it), res_ast(r), p_ternary(old(it).items(), old(it).pos())),
        r is Ok ==> final(it).pos() > old(it).pos(),
    decreases old(it).remaining(), 19nat,
{
    let cond = parse_assign(it)?;
    if consume(it, "?")? {
        let then = parse_expr(it)?;
        expect(it, ":")?;
        let else_ = parse_ternary(it)?;
        return Ok(AST::Ternary(Box::new(cond), Box::new(then), Box::new(else_)));
    }
    return Ok(cond);
}

/// assign      = equality ("=" assign | "+=" assign | "-=" assign | "*=" assign | "/=" assign)?
///
/// `x op= y` is read as `x = x op y`.
fn parse_assign(it: &mut Tokenizer) -> (r: Expected<AST>)
    requires
        old(it).wf(),
    ensures
        parsed(*old(it), *final(it), res_ast(r), p_assign(old(it).items(), old(it).pos())),
        r is Ok ==> final(it).pos() > old(it).pos(),
    decreases old(it).remaining(), 18nat,
{
    proof {
        reveal_with_fuel(ast_view, 3);
    }
    let n = parse_equality(it)?;
    if consume(it, "=")? {
        let m = parse_assign(it)?;
        return Ok(AST::Assign(Box::new(n), Box::new(m)));
    }
    if consume(it, "+=")? {
        let m = parse_assign(it)?;
        return Ok(
            AST::Assign(Box::new(n.duplicate()), Box::new(AST::Add(Box::new(n), Box::new(m)))),
        );
    }
    if consume(it, "-=")? {
        let m = parse_assign(it)?;
        return Ok(
            AST::Assign(Box::new(n.duplicate()), Box::new(AST::Sub(Box::new(n), Box::new(m)))),
        );
    }
    if consume(it, "*=")? {
        let m = parse_assign(it)?;
        return Ok(
            AST::Assign(Box::new(n.duplicate()), Box::new(AST::Mul(Box::new(n), Box::new(m)))),
        );
    }
    if consume(it, "/=")? {
        let m = parse_assign(it)?;
        return Ok(
            AST::Assign(Box::new(n.duplicate()), Box::new(AST::Div(Box::new(n), Box::new(m)))),
        );
    }
    return Ok(n);
}

/// equality    = relational ("==" relational | "!=" relational)*
fn parse_equality(it: &mut Tokenizer) -> (r: Expected<AST>)
    requires
        old(it).wf(),
    ensures
        parsed(*old(it), *final(it), res_ast(r), p_equality(old(it).items(), old(it).pos())),
        r is Ok ==> final(it).pos() > old(it).pos(),
    decreases old(it).remaining(), 17nat,
{
    let n = parse_relational(it)?;
    return parse_equality_impl(it, n);
}

/// The rest of `equality`, where `n` is what was read of it so far.
fn parse_equality_impl(it: &mut Tokenizer, n: AST) -> (r: Expected<AST>)
    requires
        old(it).wf(),
    ensures
        parsed(
            *old(it),
            *final(it),
            res_ast(r),
            p_equality_impl(old(it).items(), old(it).pos(), n@),
        ),
    decreases old(it).remaining(), 16nat,
{
    if consume(it, "==")? {
        let m = parse_relational(it)?;
        return parse_equality_impl(it, AST::Eq(Box::new(n), Box::new(m)));
    }
    if consume(it, "!=")? {
        let m = parse_relational(it)?;
        return parse_equality_impl(it, AST::Ne(Box::new(n), Box::new(m)));
    }
    return Ok(n);
}

/// relational  = add ("<" add | "<=" add | ">" add | ">=" add)*
///
/// `a > b` is read as `b < a`, and `a >= b` as `b <= a`.
fn parse_relational(it: &mut Tokenizer) -> (r: Expected<AST>)
    requires
        old(it).wf(),
    ensures
        parsed(*old(it), *final(it), res_ast(r), p_relational(old(it).items(), old(it).pos())),
        r is Ok ==> final(it).pos() > old(it).pos(),
    decreases old(it).remaining(), 15nat,
{
    let n = parse_add(it)?;
    return parse_relational_impl(it, n);
}

/// The rest of `relational`, where `n` is what was read of it so far.
fn parse_relational_impl(it: &mut Tokenizer, n: AST) -> (r: Expected<AST>)
    requires
        old(it).wf(),
    ensures
        parsed(
            *old(it),
            *final(it),
            res_ast(r),
            p_relational_impl(old(it).items(), old(it).pos(), n@),
        ),
    decreases old(it).remaining(), 14nat,
{
    if consume(it, "<")? {
        let m = parse_add(it)?;
        return parse_relational_impl(it, AST::Lt(Box::new(n), Box::new(m)));
    }
    if consume(it, "<=")? {
        let m = parse_add(it)?;
        return parse_relational_impl(it, AST::Le(Box::new(n), Box::new(m)));
    }
    if consume(it, ">")? {
        let m = parse_add(it)?;
        return parse_relational_impl(it, AST::Lt(Box::new(m), Box::new(n)));
    }
    if consume(it, ">=")? {
        let m = parse_add(it)?;
        return parse_relational_impl(it, AST::Le(Box::new(m), Box::new(n)));
    }
    return Ok(n);
}

/// add         = mul ("+" mul | "-" mul)*
fn parse_add(it: &mut Tokenizer) -> (r: Expected<AST>)
    requires
        old(it).wf(),
    ensures
        parsed(*old(it), *final(it), res_ast(r), p_add(old(it).items(), old(it).pos())),
        r is Ok ==> final(it).pos() > old(it).pos(),
    decreases old(it).remaining(), 13nat,
{
    let n = parse_mul(it)?;
    return parse_add_impl(it, n);
}

/// The rest of `add`, where `n` is what was read of it so far.
fn parse_add_impl(it: &mut Tokenizer, n: AST) -> (r: Expected<AST>)
    requires
        old(it).wf(),
    ensures
        parsed(*old(it), *final(it), res_ast(r), p_add_impl(old(it).items(), old(it).pos(), n@)),
    decreases old(it).remaining(), 12nat,
{
    if consume(it, "+")? {
        let m = parse_mul(it)?;
        return parse_add_impl(it, AST::Add(Box::new(n), Box::new(m)));
    }
    if consume(it, "-")? {
        let m = parse_mul(it)?;
        return parse_add_impl(it, AST::Sub(Box::new(n), Box::new(m)));
    }
    return Ok(n);
}

/// mul         = unary ("*" unary | "/" unary)*
fn parse_mul(it: &mut Tokenizer) -> (r: Expected<AST>)
    requires
        old(it).wf(),
    ensures
        parsed(*old(it), *final(it), res_ast(r), p_mul(old(it).items(), old(it).pos())),
        r is Ok ==> final(it).pos() > old(it).pos(),
    decreases old(it).remaining(), 11nat,
{
    let n = parse_unary(it)?;
    return parse_mul_impl(it, n);
}

/// The rest of `mul`, where `n` is what was read of it so far.
fn parse_mul_impl(it: &mut Tokenizer, n: AST) -> (r: Expected<AST>)
    requires
        old(it).wf(),
    ensures
        parsed(*old(it), *final(it), res_ast(r), p_mul_impl(old(it).items(), old(it).pos(), n@)),
    decreases old(it).remaining(), 10nat,
{
    if consume(it, "*")? {
        let m = parse_unary(it)?;
        return parse_mul_impl(it, AST::Mul(Box::new(n), Box::new(m)));
    }
    if consume(it, "/")? {
        let m = parse_unary(it)?;
        return parse_mul_impl(it, AST::Div(Box::new(n), Box::new(m)));
    }
    return Ok(n);
}

/// unary       = ("+" | "-" | "&" | "*" | "++" | "--") unary
///             | cast
///             | postfix
///
/// `-x` is read as `0 - x`, `++x` as `x = x + 1` and `--x` as `x = x - 1`.
fn parse_unary(it: &mut Tokenizer) -> (r: Expected<AST>)
    requires
        old(it).wf(),
    ensures
        parsed(*old(it), *final(it), res_ast(r), p_unary(old(it).items(), old(it).pos())),
        r is Ok ==> final(it).pos() > old(it).pos(),
    decreases old(it).remaining(), 9nat,
{
    proof {
        reveal_with_fuel(ast_view, 3);
    }
    if consume(it, "+")? {
        return parse_unary(it);
    }
    if consume(it, "-")? {
        let m = parse_unary(it)?;
        return Ok(AST::Sub(Box::new(AST::Num(0)), Box::new(m)));
    }
    if consume(it, "&")? {
        let n = parse_unary(it)?;
        return Ok(AST::Addr(Box::new(n)));
    }
    if consume(it, "*")? {
        let n = parse_unary(it)?;
        return Ok(AST::Deref(Box::new(n)));
    }
    if consume(it, "++")? {
        let n = parse_unary(it)?;
        return Ok(
            AST::Assign(
                Box::new(n.duplicate()),
                Box::new(AST::Add(Box::new(n), Box::new(AST::Num(1)))),
            ),
        );
    }
    if consume(it, "--")? {
        let n = parse_unary(it)?;
        return Ok(
            AST::Assign(
                Box::new(n.duplicate()),
                Box::new(AST::Sub(Box::new(n), Box::new(AST::Num(1)))),
            ),
        );
    }
    let mark = it.mark();
    match parse_cast(it) {
        Ok(n) => Ok(n),
        Err(_) => {
            it.reset(mark);
            parse_postfix(it)
        },
    }
}

/// cast        = "(" declspec ")" unary
fn parse_cast(it: &mut Tokenizer) -> (r: Expected<AST>)
    requires
        old(it).wf(),
    ensures
        parsed(*old(it), *final(it), res_ast(r), p_cast(old(it).items(), old(it).pos())),
        r is Ok ==> final(it).pos() > old(it).pos(),
    decreases old(it).remaining(), 8nat,
{
    expect(it, "(")?;
    let ty = parse_declspec(it)?;
    expect(it, ")")?;
    let n = parse_unary(it)?;
    return Ok(AST::Cast(ty, Box::new(n)));
}

/// postfix     = primary ("[" expr "]" | "++" | "--" | "." ident)*
///
/// `a[i]` is read as `*(a + i)`, `i++` as `(i = i + 1) - 1` and `i--` as
/// `(i = i - 1) + 1`.
fn parse_postfix(it: &mut Tokenizer) -> (r: Expected<AST>)
    requires
        old(it).wf(),
    ensures
        parsed(*old(it), *final(it), res_ast(r), p_postfix(old(it).items(), old(it).pos())),
        r is Ok ==> final(it).pos() > old(it).pos(),
    decreases old(it).remaining(), 7nat,
{
    let n = parse_primary(it)?;
    return parse_postfix_rest(it, n);
}

/// primary     = "(" "{" compound_stmt ")"
///             | "(" expr ")"
///             | ident "(" fun_args
///             | ident
///             | num
///             | str
fn parse_primary(it: &mut Tokenizer) -> (r: Expected<AST>)
    requires
        old(it).wf(),
    ensures
        parsed(*old(it), *final(it), res_ast(r), p_primary(old(it).items(), old(it).pos())),
        r is Ok ==> final(it).pos() > old(it).pos(),
    decreases old(it).remaining(), 6nat,
{
    if consume(it, "(")? {
        if consume(it, "{")? {
            let stmts = parse_compound_stmt(it)?;
            expect(it, ")")?;
            if stmts.len() == 0 {
                return Err(ErrorKind::EmptyStatementExpression);
            }
            proof {
                lemma_ast_block_view(stmts);
            }
            return Ok(AST::Block(stmts));
        }
        let n = parse_expr(it)?;
        expect(it, ")")?;
        return Ok(n);
    }
    match consume_ident(it) {
        Ok(Some(name)) => {
            if consume(it, "(")? {
                let args = parse_fun_args(it)?;
                proof {
                    lemma_call_view(name, args);
                }
                return Ok(AST::Call(name, args));
            }
            return Ok(AST::Ident(name));
        },
        Ok(None) => {},
        Err(k) => {
            return Err(k);
        },
    }
    match consume_num(it) {
        Ok(Some(n)) => {
            return Ok(AST::Num(n));
        },
        Ok(None) => {},
        Err(k) => {
            return Err(k);
        },
    }
    match consume_str(it) {
        Ok(Some(s)) => {
            return Ok(AST::Str(s));
        },
        Ok(None) => {},
        Err(k) => {
            return Err(k);
        },
    }
    Err(ErrorKind::ExpectedExpression)
}

/// decllist    = (declitem ("," declitem)*)? ";"
fn parse_decllist(it: &mut Tokenizer, ty: Type) -> (r: Expected<Vec<(Type, String, Option<AST>)>>)
    requires
        old(it).wf(),
    ensures
        parsed(*old(it), *final(it), res_decls(r), p_decllist(old(it).items(), old(it).pos(), ty@)),
        r is Ok ==> final(it).pos() > old(it).pos(),
    decreases old(it).remaining(), 26nat,
{
    let mut acc: Vec<(Type, String, Option<AST>)> = Vec::new();
    assert(decls_view(acc@) =~= Seq::empty());
    if consume(it, ";")? {
        return Ok(acc);
    }
    let first = parse_declitem(it, ty.duplicate())?;
    acc.push(first);
    assert(decls_view(acc@) =~= seq![decl_view(first)]);
    loop
        invariant
            it.wf(),
            it.items() == old(it).items(),
            it.pos() >= old(it).pos(),
            p_decllist(old(it).items(), old(it).pos(), ty@) == p_decllist_rest(
                it.items(),
                it.pos(), ty@,
                decls_view(acc@),
            ),
        decreases it.remaining(),
    {
        if consume(it, ";")? {
            return Ok(acc);
        }
        expect(it, ",")?;
        let ghost before = decls_view(acc@);
        let next = parse_declitem(it, ty.duplicate())?;
        acc.push(next);
        assert(decls_view(acc@) =~= before.push(decl_view(next)));
    }
}

/// declarators = declarator ("," declarator)* ";"
fn parse_declarators(it: &mut Tokenizer, ty: Type) -> (r: Expected<Vec<(Type, String)>>)
    requires
        old(it).wf(),
    ensures
        parsed(
            *old(it),
            *final(it),
            res_nameds(r),
            p_declarators(old(it).items(), old(it).pos(), ty@),
        ),
        r is Ok ==> final(it).pos() > old(it).pos(),
    decreases old(it).remaining(), 4nat,
{
    let mut acc: Vec<(Type, String)> = Vec::new();
    assert(nameds_view(acc@) =~= Seq::empty());
    let first = parse_declarator(it, ty.duplicate())?;
    acc.push(first);
    assert(nameds_view(acc@) =~= seq![named_view(first)]);
    loop
        invariant
            it.wf(),
            it.items() == old(it).items(),
            it.pos() >= old(it).pos(),
            p_declarators(old(it).items(), old(it).pos(), ty@) == p_declarators_rest(
                it.items(),
                it.pos(), ty@,
                nameds_view(acc@),
            ),
        decreases it.remaining(),
    {
        if consume(it, ";")? {
            return Ok(acc);
        }
        expect(it, ",")?;
        let ghost before = nameds_view(acc@);
        let next = parse_declarator(it, ty.duplicate())?;
        acc.push(next);
        assert(nameds_view(acc@) =~= before.push(named_view(next)));
    }
}

/// fun_params  = param (("," param)*)? ")"
fn parse_fun_params(it: &mut Tokenizer) -> (r: Expected<Vec<(Type, String)>>)
    requires
        old(it).wf(),
    ensures
        parsed(*old(it), *final(it), res_nameds(r), p_fun_params(old(it).items(), old(it).pos())),
        r is Ok ==> final(it).pos() > old(it).pos(),
    decreases old(it).remaining(), 6nat,
{
    let mut acc: Vec<(Type, String)> = Vec::new();
    assert(nameds_view(acc@) =~= Seq::empty());
    if consume(it, ")")? {
        return Ok(acc);
    }
    let first = parse_param(it)?;
    acc.push(first);
    assert(nameds_view(acc@) =~= seq![named_view(first)]);
    loop
        invariant
            it.wf(),
            it.items() == old(it).items(),
            it.pos() >= old(it).pos(),
            p_fun_params(old(it).items(), old(it).pos()) == p_fun_params_rest(
                it.items(),
                it.pos(),
                nameds_view(acc@),
            ),
        decreases it.remaining(),
    {
        if consume(it, ")")? {
            return Ok(acc);
        }
        expect(it, ",")?;
        let ghost before = nameds_view(acc@);
        let next = parse_param(it)?;
        acc.push(next);
        assert(nameds_view(acc@) =~= before.push(named_view(next)));
    }
}

/// fun_args    = (expr ("," expr)*)? ")"
fn parse_fun_args(it: &mut Tokenizer) -> (r: Expected<Vec<AST>>)
    requires
        old(it).wf(),
    ensures
        parsed(*old(it), *final(it), res_asts(r), p_fun_args(old(it).items(), old(it).pos())),
        r is Ok ==> final(it).pos() > old(it).pos(),
    decreases old(it).remaining(), 22nat,
{
    let mut acc: Vec<AST> = Vec::new();
    assert(asts_view(acc@) =~= Seq::empty());
    if consume(it, ")")? {
        return Ok(acc);
    }
    let first = parse_expr(it)?;
    acc.push(first);
    assert(asts_view(acc@) =~= seq![ast_view(first)]);
    loop
        invariant
            it.wf(),
            it.items() == old(it).items(),
            it.pos() >= old(it).pos(),
            p_fun_args(old(it).items(), old(it).pos()) == p_fun_args_rest(
                it.items(),
                it.pos(),
                asts_view(acc@),
            ),
        decreases it.remaining(),
    {
        if consume(it, ")")? {
            return Ok(acc);
        }
        expect(it, ",")?;
        let ghost before = asts_view(acc@);
        let next = parse_expr(it)?;
        acc.push(next);
        assert(asts_view(acc@) =~= before.push(ast_view(next)));
    }
}

} // verus!
