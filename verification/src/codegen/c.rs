//! The C back end: prints a module as C source.
//!
//! Every value is an `int` named after its instruction, the stack slots of
//! a function are one array `m`, and control flow is `goto` between labelled
//! blocks.

use crate::ir::arena::{BlockId, FunctionId, InstId};
use crate::ir::function::{Function, FunctionView};
use crate::ir::inst::{Inst, InstKind, InstKindView, InstView};
use crate::ir::module::{Module, ModuleView};
use crate::text::string_push;
use crate::ty::Type;
use vstd::prelude::*;
use vstd::string::StringExecFns;

verus! {

// ----- what is printed -----

/// The character of the decimal digit `d`.
pub open spec fn digit(d: nat) -> char {
    (0x30 + d) as u8 as char
}

/// The decimal numeral of `n`.
pub open spec fn decimal(n: nat) -> Seq<char>
    decreases n,
{
    if n < 10 {
        seq![digit(n)]
    } else {
        decimal(n / 10).push(digit(n % 10))
    }
}

/// How a type is written: `int`, `char`, a pointer to what a pointer or an
/// array holds, a struct by its tag. A type that C cannot name in this place
/// is written `int`.
pub open spec fn c_type(ty: Type) -> Seq<char>
    decreases ty,
{
    match ty {
        Type::Int => "int"@,
        Type::Char => "char"@,
        Type::Pointer(t) => c_type(*t) + "*"@,
        Type::Array(t, _) => c_type(*t) + "*"@,
        Type::Struct(Some(name), _) => "struct "@ + name@,
        _ => "int"@,
    }
}

/// The name of the value of instruction `id`.
pub open spec fn reg(id: InstId) -> Seq<char> {
    "r"@ + decimal(id.index as nat)
}

/// The label of block `id`.
pub open spec fn label(id: BlockId) -> Seq<char> {
    "block"@ + decimal(id.index as nat)
}

/// The name of function `id` of module `m`; `fun` and its number where the
/// module has no such function.
pub open spec fn function_name(m: ModuleView, id: FunctionId) -> Seq<char> {
    if m.has_function(id) {
        m.function(id).name
    } else {
        "fun"@ + decimal(id.index as nat)
    }
}

/// The values `args` from position `i` on, by name, with `, ` between them.
pub open spec fn c_args(args: Seq<InstId>, i: int) -> Seq<char>
    decreases args.len() - i,
{
    if i < 0 || i >= args.len() {
        Seq::empty()
    } else if i + 1 < args.len() {
        reg(args[i]) + ", "@ + c_args(args, i + 1)
    } else {
        reg(args[i])
    }
}

/// `int rN = rA op rB;`
pub open spec fn c_binary(id: InstId, a: InstId, op: Seq<char>, b: InstId) -> Seq<char> {
    "\n  int "@ + reg(id) + " = "@ + reg(a) + op + reg(b) + ";"@
}

/// The statement that an instruction is printed as.
pub open spec fn c_inst(inst: InstView, m: ModuleView) -> Seq<char> {
    match inst.kind {
        InstKindView::Eq(a, b) => c_binary(inst.id, a, " == "@, b),
        InstKindView::Ne(a, b) => c_binary(inst.id, a, " != "@, b),
        InstKindView::Lt(a, b) => c_binary(inst.id, a, " < "@, b),
        InstKindView::Le(a, b) => c_binary(inst.id, a, " <= "@, b),
        InstKindView::Add(a, b) => c_binary(inst.id, a, " + "@, b),
        InstKindView::Sub(a, b) => c_binary(inst.id, a, " - "@, b),
        InstKindView::Mul(a, b) => c_binary(inst.id, a, " * "@, b),
        InstKindView::Div(a, b) => c_binary(inst.id, a, " / "@, b),
        InstKindView::Load(mem) => "\n  int "@ + reg(inst.id) + " = m["@ + decimal(
            mem.index as nat,
        ) + "];"@,
        InstKindView::Call(f, args) => "\n  int "@ + reg(inst.id) + " = "@ + function_name(m, f)
            + "("@ + c_args(args, 0) + ");"@,
        InstKindView::Const(n) => "\n  int "@ + reg(inst.id) + " = "@ + decimal(n as nat) + ";"@,
        InstKindView::Br(c, b1, b2) => "\n  if ("@ + reg(c) + ") goto "@ + label(b1)
            + "; else goto "@ + label(b2) + ";"@,
        InstKindView::Jmp(b) => "\n  goto "@ + label(b) + ";"@,
        InstKindView::Store(mem, v) => "\n  m["@ + decimal(mem.index as nat) + "] = "@ + reg(v)
            + ";"@,
        InstKindView::Ret(v) => "\n  return "@ + reg(v) + ";"@,
    }
}

/// The instructions `insts` of function `f` from position `i` on, printed.
pub open spec fn c_insts(f: FunctionView, m: ModuleView, insts: Seq<InstId>, i: int) -> Seq<char>
    decreases insts.len() - i,
{
    if i < 0 || i >= insts.len() {
        Seq::empty()
    } else {
        c_inst(f.inst(insts[i]), m) + c_insts(f, m, insts, i + 1)
    }
}

/// The blocks of function `f` from position `i` of the block order on,
/// printed: each a label and its instructions.
pub open spec fn c_blocks(f: FunctionView, m: ModuleView, i: int) -> Seq<char>
    decreases f.blocks.len() - i,
{
    if i < 0 || i >= f.blocks.len() {
        Seq::empty()
    } else {
        "\n"@ + label(f.blocks[i]) + ":;"@ + c_insts(f, m, f.block(f.blocks[i]).insts, 0)
            + c_blocks(f, m, i + 1)
    }
}

/// The parameters from position `i` on: their types, with `, ` between
/// them, each followed by the parameter's name `aN` where `named`.
pub open spec fn c_params(tys: Seq<Type>, i: int, named: bool) -> Seq<char>
    decreases tys.len() - i,
{
    if i < 0 || i >= tys.len() {
        Seq::empty()
    } else {
        let one = if named {
            c_type(tys[i]) + " a"@ + decimal(i as nat)
        } else {
            c_type(tys[i])
        };
        if i + 1 < tys.len() {
            one + ", "@ + c_params(tys, i + 1, named)
        } else {
            one
        }
    }
}

/// The statements that copy the parameters from position `i` on into the
/// first stack slots.
pub open spec fn c_copies(count: int, i: int) -> Seq<char>
    decreases count - i,
{
    if i < 0 || i >= count {
        Seq::empty()
    } else {
        "\n  m["@ + decimal(i as nat) + "] = a"@ + decimal(i as nat) + ";"@ + c_copies(count, i + 1)
    }
}

/// A function, printed: a declaration where it has no block, else its
/// definition.
pub open spec fn c_function(f: FunctionView, m: ModuleView) -> Seq<char> {
    if f.blocks.len() == 0 {
        "\n\n"@ + c_type(f.ret_ty) + " "@ + f.name + "("@ + c_params(f.param_tys, 0, false)
            + ");"@
    } else {
        "\n\n"@ + c_type(f.ret_ty) + " "@ + f.name + "("@ + c_params(f.param_tys, 0, true)
            + ") {"@ + (if f.memory_items.len() != 0 {
            "\n  int m["@ + decimal(f.memory_items.len()) + "];"@
        } else {
            Seq::empty()
        }) + c_copies(f.param_tys.len() as int, 0) + c_blocks(f, m, 0) + "\n}"@
    }
}

/// The functions of module `m` from position `i` on, printed.
pub open spec fn c_functions(m: ModuleView, i: int) -> Seq<char>
    decreases m.functions.len() - i,
{
    if i < 0 || i >= m.functions.len() {
        Seq::empty()
    } else {
        c_function(m.functions[i], m) + c_functions(m, i + 1)
    }
}

/// A module, printed as C source.
pub open spec fn c_module(m: ModuleView) -> Seq<char> {
    "// ModuleName = '"@ + m.name + "'"@ + c_functions(m, 0)
}

/// Every block of every function lists instructions of its function.
pub open spec fn printable(m: ModuleView) -> bool {
    forall|i: int| 0 <= i < m.functions.len() ==> (#[trigger] m.functions[i]).wf()
}

// ----- printing -----

/// Appends the decimal numeral of `n`.
fn put_decimal(out: &mut String, n: u64)
    ensures
        final(out)@ == old(out)@ + decimal(n as nat),
    decreases n,
{
    if n >= 10 {
        put_decimal(out, n / 10);
    }
    let ghost before = out@;
    string_push(out, ((0x30 + n % 10) as u8) as char);
    proof {
        if n >= 10 {
            assert(out@ =~= old(out)@ + decimal((n / 10) as nat).push(digit((n % 10) as nat)));
        } else {
            assert(out@ =~= old(out)@ + seq![digit(n as nat)]);
        }
    }
}

/// Appends the decimal numeral of an index.
fn put_index(out: &mut String, n: usize)
    ensures
        final(out)@ == old(out)@ + decimal(n as nat),
{
    put_decimal(out, n as u64);
}

/// Appends a type.
fn put_type(out: &mut String, ty: &Type)
    ensures
        final(out)@ == old(out)@ + c_type(*ty),
    decreases ty,
{
    match ty {
        Type::Int => out.append("int"),
        Type::Char => out.append("char"),
        Type::Pointer(t) | Type::Array(t, _) => {
            put_type(out, t);
            out.append("*");
            assert(out@ =~= old(out)@ + (c_type(**t) + "*"@));
        },
        Type::Struct(Some(name), _) => {
            out.append("struct ");
            out.append(name.as_str());
            assert(out@ =~= old(out)@ + ("struct "@ + name@));
        },
        _ => out.append("int"),
    }
}

/// Appends the name of a value.
fn put_reg(out: &mut String, id: InstId)
    ensures
        final(out)@ == old(out)@ + reg(id),
{
    out.append("r");
    put_index(out, id.index());
    assert(out@ =~= old(out)@ + reg(id));
}

/// Appends the label of a block.
fn put_label(out: &mut String, id: BlockId)
    ensures
        final(out)@ == old(out)@ + label(id),
{
    out.append("block");
    put_index(out, id.index());
    assert(out@ =~= old(out)@ + label(id));
}

/// Appends `int rN = rA op rB;`.
fn put_binary(out: &mut String, id: InstId, a: InstId, op: &str, b: InstId)
    ensures
        final(out)@ == old(out)@ + c_binary(id, a, op@, b),
{
    out.append("\n  int ");
    put_reg(out, id);
    out.append(" = ");
    put_reg(out, a);
    out.append(op);
    put_reg(out, b);
    out.append(";");
    assert(out@ =~= old(out)@ + c_binary(id, a, op@, b));
}

/// Appends the arguments of a call.
fn put_args(out: &mut String, args: &Vec<InstId>)
    ensures
        final(out)@ == old(out)@ + c_args(args@, 0),
{
    let mut i: usize = 0;
    assert(out@ =~= old(out)@ + Seq::<char>::empty());
    while i < args.len()
        invariant
            i <= args@.len(),
            old(out)@ + c_args(args@, 0) == out@ + c_args(args@, i as int),
        decreases args@.len() - i,
    {
        let ghost before = out@;
        put_reg(out, args[i]);
        if i + 1 < args.len() {
            out.append(", ");
            assert(out@ + c_args(args@, i + 1) =~= before + c_args(args@, i as int));
        } else {
            assert(out@ + c_args(args@, i + 1) =~= before + c_args(args@, i as int));
        }
        i += 1;
    }
    assert(out@ + Seq::<char>::empty() =~= out@);
}

/// Appends an instruction.
fn gen_inst(out: &mut String, inst: &Inst, module: &Module)
    ensures
        final(out)@ == old(out)@ + c_inst(inst@, module@),
{
    let id = inst.id();
    match inst.kind() {
        InstKind::Eq(a, b) => put_binary(out, id, *a, " == ", *b),
        InstKind::Ne(a, b) => put_binary(out, id, *a, " != ", *b),
        InstKind::Lt(a, b) => put_binary(out, id, *a, " < ", *b),
        InstKind::Le(a, b) => put_binary(out, id, *a, " <= ", *b),
        InstKind::Add(a, b) => put_binary(out, id, *a, " + ", *b),
        InstKind::Sub(a, b) => put_binary(out, id, *a, " - ", *b),
        InstKind::Mul(a, b) => put_binary(out, id, *a, " * ", *b),
        InstKind::Div(a, b) => put_binary(out, id, *a, " / ", *b),
        InstKind::Load(mem) => {
            out.append("\n  int ");
            put_reg(out, id);
            out.append(" = m[");
            put_index(out, mem.index());
            out.append("];");
            assert(out@ =~= old(out)@ + c_inst(inst@, module@));
        },
        InstKind::Call(fun_id, args) => {
            out.append("\n  int ");
            put_reg(out, id);
            out.append(" = ");
            if module.has_function(*fun_id) {
                out.append(module.get_function(*fun_id).name());
            } else {
                out.append("fun");
                put_index(out, fun_id.index());
            }
            out.append("(");
            put_args(out, args);
            out.append(");");
            assert(out@ =~= old(out)@ + c_inst(inst@, module@));
        },
        InstKind::Const(n) => {
            out.append("\n  int ");
            put_reg(out, id);
            out.append(" = ");
            put_decimal(out, *n);
            out.append(";");
            assert(out@ =~= old(out)@ + c_inst(inst@, module@));
        },
        InstKind::Br(c, b1, b2) => {
            out.append("\n  if (");
            put_reg(out, *c);
            out.append(") goto ");
            put_label(out, *b1);
            out.append("; else goto ");
            put_label(out, *b2);
            out.append(";");
            assert(out@ =~= old(out)@ + c_inst(inst@, module@));
        },
        InstKind::Jmp(b) => {
            out.append("\n  goto ");
            put_label(out, *b);
            out.append(";");
            assert(out@ =~= old(out)@ + c_inst(inst@, module@));
        },
        InstKind::Store(mem, v) => {
            out.append("\n  m[");
            put_index(out, mem.index());
            out.append("] = ");
            put_reg(out, *v);
            out.append(";");
            assert(out@ =~= old(out)@ + c_inst(inst@, module@));
        },
        InstKind::Ret(v) => {
            out.append("\n  return ");
            put_reg(out, *v);
            out.append(";");
            assert(out@ =~= old(out)@ + c_inst(inst@, module@));
        },
    }
}

/// Appends the parameters of a function.
fn put_params(out: &mut String, tys: &[Type], named: bool)
    ensures
        final(out)@ == old(out)@ + c_params(tys@, 0, named),
{
    let mut i: usize = 0;
    assert(out@ =~= old(out)@ + Seq::<char>::empty());
    while i < tys.len()
        invariant
            i <= tys@.len(),
            old(out)@ + c_params(tys@, 0, named) == out@ + c_params(tys@, i as int, named),
        decreases tys@.len() - i,
    {
        let ghost before = out@;
        put_type(out, &tys[i]);
        if named {
            out.append(" a");
            put_index(out, i);
        }
        if i + 1 < tys.len() {
            out.append(", ");
        }
        assert(out@ + c_params(tys@, i + 1, named) =~= before + c_params(tys@, i as int, named));
        i += 1;
    }
    assert(out@ + Seq::<char>::empty() =~= out@);
}

/// Appends the blocks of a function.
fn put_blocks(out: &mut String, fun: &Function, module: &Module)
    requires
        fun@.wf(),
    ensures
        final(out)@ == old(out)@ + c_blocks(fun@, module@, 0),
{
    let blocks = fun.blocks();
    let mut i: usize = 0;
    assert(out@ =~= old(out)@ + Seq::<char>::empty());
    while i < blocks.len()
        invariant
            i <= blocks@.len(),
            blocks@ == fun@.blocks,
            fun@.wf(),
            old(out)@ + c_blocks(fun@, module@, 0) == out@ + c_blocks(fun@, module@, i as int),
        decreases blocks@.len() - i,
    {
        let ghost before = out@;
        let block_id = blocks[i];
        assert(fun@.has_block(fun@.blocks[i as int]));
        out.append("\n");
        put_label(out, block_id);
        out.append(":;");
        let insts = fun.block(block_id).insts();
        let ghost head = out@;
        let mut k: usize = 0;
        assert(out@ =~= head + Seq::<char>::empty());
        while k < insts.len()
            invariant
                k <= insts@.len(),
                insts@ == fun@.block(block_id).insts,
                fun@.has_block(block_id),
                fun@.wf(),
                head + c_insts(fun@, module@, insts@, 0) == out@ + c_insts(
                    fun@,
                    module@,
                    insts@,
                    k as int,
                ),
            decreases insts@.len() - k,
        {
            let ghost mid = out@;
            assert(fun@.has_inst(fun@.block(block_id).insts[k as int]));
            gen_inst(out, fun.inst(insts[k]), module);
            assert(out@ + c_insts(fun@, module@, insts@, k + 1) =~= mid + c_insts(
                fun@,
                module@,
                insts@,
                k as int,
            ));
            k += 1;
        }
        assert(out@ + Seq::<char>::empty() =~= out@);
        assert(out@ + c_blocks(fun@, module@, i + 1) =~= before + c_blocks(fun@, module@, i as int));
        i += 1;
    }
    assert(out@ + Seq::<char>::empty() =~= out@);
}

/// Appends a function: a declaration where it has no block, else its
/// definition.
fn gen_fun(out: &mut String, fun: &Function, module: &Module)
    requires
        fun@.wf(),
    ensures
        final(out)@ == old(out)@ + c_function(fun@, module@),
{
    out.append("\n\n");
    put_type(out, fun.ret_ty());
    out.append(" ");
    out.append(fun.name());
    out.append("(");
    if fun.is_declaration() {
        // Emit function declaration
        put_params(out, fun.param_tys(), false);
        out.append(");");
        assert(out@ =~= old(out)@ + c_function(fun@, module@));
    } else {
        // Emit function return type, name and parameters
        put_params(out, fun.param_tys(), true);
        out.append(") {");
        // Allocate memory
        let count = fun.memory_count();
        if count != 0 {
            out.append("\n  int m[");
            put_index(out, count);
            out.append("];");
        }
        let ghost head = out@;
        // Store function parameters to memory
        let params = fun.param_tys().len();
        let mut i: usize = 0;
        assert(out@ =~= head + Seq::<char>::empty());
        while i < params
            invariant
                i <= params,
                head + c_copies(params as int, 0) == out@ + c_copies(params as int, i as int),
            decreases params - i,
        {
            let ghost mid = out@;
            out.append("\n  m[");
            put_index(out, i);
            out.append("] = a");
            put_index(out, i);
            out.append(";");
            assert(out@ + c_copies(params as int, i + 1) =~= mid + c_copies(
                params as int,
                i as int,
            ));
            i += 1;
        }
        assert(out@ + Seq::<char>::empty() =~= out@);
        // Emit function body
        put_blocks(out, fun, module);
        out.append("\n}");
        assert(out@ =~= old(out)@ + c_function(fun@, module@));
    }
}

/// Prints a module as C source.
pub fn codegen(module: &Module) -> (r: String)
    requires
        printable(module@),
    ensures
        r@ == c_module(module@),
{
    let mut out = String::new();
    out.append("// ModuleName = '");
    out.append(module.name());
    out.append("'");
    let ghost head = out@;
    let ids = module.function_ids();
    let mut i: usize = 0;
    assert(out@ =~= head + Seq::<char>::empty());
    while i < ids.len()
        invariant
            i <= ids@.len(),
            ids@.len() == module@.functions.len(),
            forall|j: int| 0 <= j < ids@.len() ==> #[trigger] ids@[j] == module@.id_at(j),
            printable(module@),
            head + c_functions(module@, 0) == out@ + c_functions(module@, i as int),
        decreases ids@.len() - i,
    {
        let ghost mid = out@;
        assert(ids@[i as int] == module@.id_at(i as int));
        assert(module@.functions[i as int].wf());
        gen_fun(&mut out, module.get_function(ids[i]), module);
        assert(out@ + c_functions(module@, i + 1) =~= mid + c_functions(module@, i as int));
        i += 1;
    }
    assert(out@ + Seq::<char>::empty() =~= out@);
    assert(head =~= "// ModuleName = '"@ + module@.name + "'"@);
    out
}

} // verus!
