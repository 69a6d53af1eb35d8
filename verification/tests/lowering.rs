use minic::codegen::c::codegen;
use minic::common::ErrorKind;
use minic::ir::function::Function;
use minic::ir::inst::InstKind;
use minic::ir::module::Module;
use minic::irgen::IRGen;
use minic::parse::parse;
use minic::pass::count_ops;
use minic::pass::dce::DeadCodeElimination;
use minic::pass::folder::ConstantFolding;
use minic::tokenize::Tokenizer;

fn lower(input: &str) -> Result<Module, ErrorKind> {
    let items = parse(Tokenizer::new(input)).unwrap();
    IRGen::new("mod".to_string()).irgen(items)
}

fn main_of(module: &Module) -> &Function {
    module.get_function(module.get_function_by_name("main").unwrap())
}

fn kinds_of(fun: &Function) -> Vec<Vec<String>> {
    fun.blocks()
        .iter()
        .map(|&b| {
            fun.get(b)
                .insts()
                .iter()
                .map(|&i| match fun.get(i).kind() {
                    InstKind::Eq(..) => "eq".to_string(),
                    InstKind::Ne(..) => "ne".to_string(),
                    InstKind::Lt(..) => "lt".to_string(),
                    InstKind::Le(..) => "le".to_string(),
                    InstKind::Add(..) => "add".to_string(),
                    InstKind::Sub(..) => "sub".to_string(),
                    InstKind::Mul(..) => "mul".to_string(),
                    InstKind::Div(..) => "div".to_string(),
                    InstKind::Load(m) => format!("load m{}", m.index()),
                    InstKind::Call(..) => "call".to_string(),
                    InstKind::Const(n) => format!("const {}", n),
                    InstKind::Br(_, a, b) => format!("br {} {}", a.index(), b.index()),
                    InstKind::Jmp(a) => format!("jmp {}", a.index()),
                    InstKind::Store(m, _) => format!("store m{}", m.index()),
                    InstKind::Ret(_) => "ret".to_string(),
                })
                .collect()
        })
        .collect()
}

fn every_block_is_closed(fun: &Function) -> bool {
    fun.blocks().iter().all(|&b| {
        let insts = fun.get(b).insts();
        let closes = |i: &minic::ir::arena::InstId| {
            matches!(fun.get(*i).kind(), InstKind::Br(..) | InstKind::Jmp(..) | InstKind::Ret(..))
        };
        !insts.is_empty()
            && closes(insts.last().unwrap())
            && insts[..insts.len() - 1].iter().all(|i| !closes(i))
    })
}

fn links_hold(fun: &Function) -> bool {
    fun.blocks().iter().all(|&b| {
        fun.get(b).insts().iter().all(|&i| {
            let kind = fun.get(i).kind();
            let users = kind.operands().iter().all(|&v| fun.get(v).use_().contains(i));
            let edges = kind
                .targets()
                .iter()
                .all(|&t| fun.get(t).pred().contains(b) && fun.get(b).succ().contains(t));
            let slots = match kind {
                InstKind::Load(m) => fun.get(*m).load().contains(i),
                InstKind::Store(m, _) => fun.get(*m).store().contains(i),
                _ => true,
            };
            users && edges && slots
        })
    })
}

#[test]
fn return_of_a_constant() {
    let module = lower("int main(){return 42;}").unwrap();
    let fun = main_of(&module);
    assert_eq!(kinds_of(fun), vec![vec!["const 42", "ret"]]);
    assert!(every_block_is_closed(fun));
    assert!(links_hold(fun));
    assert_eq!(
        codegen(&module),
        "// ModuleName = 'mod'\n\nint main() {\nblock0:;\n  int r0 = 42;\n  return r0;\n}"
    );
    assert!(codegen(&module).contains("return r0;"));
}

#[test]
fn dead_arithmetic_is_eliminated() {
    let module = lower("int main(){int x=0; x+1+2+3; return x;}").unwrap();
    let before = count_ops(main_of(&module));
    assert_eq!(
        kinds_of(main_of(&module)),
        vec![vec![
            "const 0", "store m0", "load m0", "const 1", "add", "const 2", "add", "const 3", "add",
            "load m0", "ret"
        ]]
    );
    let module = DeadCodeElimination::new(module).run();
    let fun = main_of(&module);
    assert_eq!(kinds_of(fun), vec![vec!["const 0", "store m0", "load m0", "ret"]]);
    assert!(count_ops(fun) < before);
    assert_eq!(before, 11);
    assert_eq!(count_ops(fun), 4);
    assert!(links_hold(fun));
    assert!(every_block_is_closed(fun));
}

#[test]
fn constants_fold_and_the_rest_is_eliminated() {
    let module = lower("int main(){int x=4; 1+2+3+x; return x;}").unwrap();
    let module = ConstantFolding::new(module).run();
    let folded = kinds_of(main_of(&module));
    assert_eq!(
        folded,
        vec![vec![
            "const 4", "store m0", "const 1", "const 2", "const 3", "add", "const 3", "const 6",
            "add", "load m0", "add", "load m0", "ret"
        ]]
    );
    assert!(links_hold(main_of(&module)));
    let module = DeadCodeElimination::new(module).run();
    let fun = main_of(&module);
    let adds = kinds_of(fun)[0].iter().filter(|k| *k == "add").count();
    assert!(adds <= 1);
    assert_eq!(kinds_of(fun), vec![vec!["const 4", "store m0", "load m0", "ret"]]);
}

#[test]
fn a_used_sum_of_constants_folds_to_one_constant() {
    let module = lower("int main(){int x=4; return 1+2+3+x;}").unwrap();
    let module = ConstantFolding::new(module).run();
    let module = DeadCodeElimination::new(module).run();
    let fun = main_of(&module);
    assert_eq!(
        kinds_of(fun),
        vec![vec!["const 4", "store m0", "const 6", "load m0", "add", "ret"]]
    );
    let insts = fun.get(fun.blocks()[0]).insts();
    match fun.get(insts[4]).kind() {
        InstKind::Add(a, b) => {
            assert!(matches!(fun.get(*a).kind(), InstKind::Const(6)));
            assert!(matches!(fun.get(*b).kind(), InstKind::Load(_)));
        }
        _ => panic!("expecting an addition"),
    }
    assert!(links_hold(fun));
}

#[test]
fn two_functions_and_a_call() {
    let module = lower("int f(int a, int b){return a+b;} int main(){return f(1,2);}").unwrap();
    let text = codegen(&module);
    assert_eq!(
        text,
        "// ModuleName = 'mod'\n\nint f(int a0, int a1) {\n  int m[2];\n  m[0] = a0;\n  m[1] = a1;\nblock0:;\n  int r0 = m[0];\n  int r1 = m[1];\n  int r2 = r0 + r1;\n  return r2;\n}\n\nint main() {\nblock0:;\n  int r0 = 1;\n  int r1 = 2;\n  int r2 = f(r0, r1);\n  return r2;\n}"
    );
    assert!(text.contains("int f(int a0, int a1) {"));
    assert!(text.contains("int main() {"));
    assert!(text.contains("f(r0, r1)"));
}

#[test]
fn a_declaration_is_printed_as_one() {
    let module = lower("int f(int a, char b); char g();").unwrap();
    assert_eq!(codegen(&module), "// ModuleName = 'mod'\n\nint f(int, char);\n\nchar g();");
}

#[test]
fn for_loop_has_four_blocks() {
    let module = lower("int main(){int i; for(i=0;i<3;i=i+1){} return i;}").unwrap();
    let fun = main_of(&module);
    assert_eq!(
        kinds_of(fun),
        vec![
            vec!["const 0", "store m0", "load m0", "jmp 1"],
            vec!["load m0", "const 3", "lt", "br 2 4"],
            vec!["jmp 3"],
            vec!["load m0", "const 1", "add", "store m0", "load m0", "jmp 1"],
            vec!["load m0", "ret"],
        ]
    );
    assert_eq!(fun.blocks().iter().map(|b| b.index()).collect::<Vec<_>>(), vec![0, 1, 2, 3, 4]);
    assert!(every_block_is_closed(fun));
    assert!(links_hold(fun));
    // the block after the loop is reached from the condition
    let after = fun.blocks()[4];
    assert!(fun.get(after).pred().contains(fun.blocks()[1]));
    assert_eq!(fun.get(after).pred().len(), 1);
    // the condition is reached from the entry and from the increment
    let cond = fun.blocks()[1];
    assert_eq!(fun.get(cond).pred().len(), 2);
}

#[test]
fn if_else_that_returns_on_both_sides_has_no_merge_block() {
    let module = lower("int main(){if(1){return 1;}else{return 2;}}").unwrap();
    let fun = main_of(&module);
    assert_eq!(
        kinds_of(fun),
        vec![vec!["const 1", "br 1 2"], vec!["const 1", "ret"], vec!["const 2", "ret"]]
    );
    assert!(every_block_is_closed(fun));
    assert!(links_hold(fun));
}

#[test]
fn if_without_else_goes_on_in_the_else_block() {
    let module = lower("int main(){int x=0; if(x) x=1; return x;}").unwrap();
    let fun = main_of(&module);
    assert_eq!(
        kinds_of(fun),
        vec![
            vec!["const 0", "store m0", "load m0", "br 1 2"],
            vec!["const 1", "store m0", "load m0", "jmp 2"],
            vec!["load m0", "ret"],
        ]
    );
    assert!(every_block_is_closed(fun));
}

#[test]
fn endless_loop_closes_the_function() {
    let module = lower("int main(){for(;;){}}").unwrap();
    let fun = main_of(&module);
    assert_eq!(kinds_of(fun), vec![vec!["jmp 1"], vec!["jmp 2"], vec!["jmp 3"], vec!["jmp 1"]]);
    assert!(every_block_is_closed(fun));
}

#[test]
fn break_and_continue_jump_to_the_loop_labels() {
    let module = lower("int main(){for(;;){ if (1) break; else continue; } return 0;}").unwrap();
    let fun = main_of(&module);
    assert!(every_block_is_closed(fun));
    assert!(links_hold(fun));
    let kinds = kinds_of(fun);
    // the two arms of the if: break to the block after the loop, continue to the increment
    assert!(kinds.iter().any(|b| b == &vec!["jmp 4".to_string()]));
    assert!(kinds.iter().any(|b| b == &vec!["jmp 3".to_string()]));
    assert_eq!(kinds.last().unwrap(), &vec!["const 0".to_string(), "ret".to_string()]);
}

#[test]
fn ternary_goes_through_a_stack_slot() {
    let module = lower("int main(){return 1 ? 2 : 3;}").unwrap();
    let fun = main_of(&module);
    assert_eq!(
        kinds_of(fun),
        vec![
            vec!["const 1", "br 1 2"],
            vec!["const 2", "store m0", "jmp 3"],
            vec!["const 3", "store m0", "jmp 3"],
            vec!["load m0", "ret"],
        ]
    );
    assert!(every_block_is_closed(fun));
    assert!(links_hold(fun));
}

#[test]
fn statement_expression_yields_its_last_value() {
    let module = lower("int main(){return ({ int y = 2; y + 1; });}").unwrap();
    let fun = main_of(&module);
    assert_eq!(
        kinds_of(fun),
        vec![vec!["const 2", "store m0", "load m0", "const 1", "add", "ret"]]
    );
}

#[test]
fn assignment_yields_the_stored_value() {
    let module = lower("int main(){int x; int y; y = x = 5; return y;}").unwrap();
    let fun = main_of(&module);
    assert_eq!(
        kinds_of(fun),
        vec![vec!["const 5", "store m0", "load m0", "store m1", "load m1", "load m1", "ret"]]
    );
}

#[test]
fn shadowing_across_scopes_is_allowed() {
    let module = lower("int main(){int x = 1; { int x = 2; x; } return x;}").unwrap();
    let fun = main_of(&module);
    assert_eq!(
        kinds_of(fun),
        vec![vec![
            "const 1", "store m0", "const 2", "store m1", "load m1", "load m0", "ret"
        ]]
    );
}

#[test]
fn scope_errors() {
    assert_eq!(lower("int main(){int x; int x; return 0;}").err(), Some(ErrorKind::VariableExists));
    assert_eq!(lower("int main(){return x;}").err(), Some(ErrorKind::VariableUndeclared));
    assert_eq!(lower("int main(){x = 1; return 0;}").err(), Some(ErrorKind::VariableUndeclared));
    assert_eq!(lower("int main(){ { int y; } return y;}").err(), Some(ErrorKind::VariableUndeclared));
    assert_eq!(lower("int f(int a, int a){return a;}").err(), Some(ErrorKind::ParameterExists));
    assert_eq!(lower("int main(){return f();}").err(), Some(ErrorKind::FunctionMissing));
    assert_eq!(lower("int main(){1 = 2; return 0;}").err(), Some(ErrorKind::RvalueAddress));
    assert_eq!(
        lower("int f(){return 0;} int f(){return 1;}").err(),
        Some(ErrorKind::FunctionExists)
    );
    assert_eq!(
        lower("int main(){struct s {int a;}; struct s {int b;}; return 0;}").err(),
        Some(ErrorKind::StructExists)
    );
    assert_eq!(lower("struct s {int a;}; struct s {int b;};").err(), Some(ErrorKind::StructExists));
}

#[test]
fn type_errors() {
    assert_eq!(lower("int f(int a); int f(char a);").err(), Some(ErrorKind::FunctionTypeDiffers));
    assert_eq!(lower("int f(int a); char f(int a);").err(), Some(ErrorKind::FunctionTypeDiffers));
    assert_eq!(lower("int f(int a); int f(int a, int b);").err(), Some(ErrorKind::FunctionTypeDiffers));
    assert_eq!(lower("char main(){return 1;}").err(), Some(ErrorKind::ReturnTypeDiffers));
    assert_eq!(
        lower("int f(int a); int main(){return f();}").err(),
        Some(ErrorKind::ArgumentMismatch)
    );
    assert_eq!(
        lower("int f(char a); int main(){return f(1);}").err(),
        Some(ErrorKind::ArgumentMismatch)
    );
    assert_eq!(
        lower("char f(); int main(){return f();}").err(),
        Some(ErrorKind::ReturnTypeDiffers)
    );
    assert_eq!(
        lower("int *f(); int main(){return f();}").err(),
        Some(ErrorKind::ExpressionUnsupported)
    );
    assert_eq!(lower("int main(){return (char)1;}").err(), Some(ErrorKind::CastUnsupported));
    assert_eq!(lower("int main(){struct s {int a;} v; return 0;}").err(), Some(ErrorKind::TypeUnsupported));
    assert_eq!(lower("int main(){int *p; return 0;}").err(), Some(ErrorKind::TypeUnsupported));
    assert_eq!(lower("int f(int *p){return 0;}").err(), Some(ErrorKind::TypeUnsupported));
    assert_eq!(lower("int main(){int x; return *x;}").err(), Some(ErrorKind::ExpressionUnsupported));
    assert_eq!(lower("int main(){int x; return &x;}").err(), Some(ErrorKind::ExpressionUnsupported));
    assert_eq!(lower("int main(){int x; return x.m;}").err(), Some(ErrorKind::ExpressionUnsupported));
    assert_eq!(lower("int main(){return \"s\";}").err(), Some(ErrorKind::ExpressionUnsupported));
    assert_eq!(lower("int x;").err(), Some(ErrorKind::GlobalUnsupported));
    assert_eq!(
        lower("int main(){return ({ int x; });}").err(),
        Some(ErrorKind::StatementExpressionValue)
    );
    assert_eq!(
        lower("int main(){return ({ return 1; });}").err(),
        Some(ErrorKind::StatementExpressionValue)
    );
}

#[test]
fn control_errors() {
    assert_eq!(lower("int main(){}").err(), Some(ErrorKind::NoTerminator));
    assert_eq!(lower("int main(){int x; x = 1;}").err(), Some(ErrorKind::NoTerminator));
    assert_eq!(lower("int main(){if (1) return 1;}").err(), Some(ErrorKind::NoTerminator));
    assert_eq!(lower("int main(){break; return 0;}").err(), Some(ErrorKind::BreakOutsideLoop));
    assert_eq!(lower("int main(){continue;}").err(), Some(ErrorKind::ContinueOutsideLoop));
    assert_eq!(lower("int main(){for(;;){ break; }}").err(), Some(ErrorKind::NoTerminator));
}

#[test]
fn what_follows_a_return_is_not_lowered() {
    let module = lower("int main(){return 1; return undeclared;}").unwrap();
    assert_eq!(kinds_of(main_of(&module)), vec![vec!["const 1", "ret"]]);
}

#[test]
fn declaration_then_definition_and_recursion() {
    let module = lower("int f(int n); int f(int m){ return f(m); } int main(){return f(3);}").unwrap();
    assert_eq!(module.function_ids().len(), 2);
    let f = module.get_function(module.get_function_by_name("f").unwrap());
    assert!(!f.is_declaration());
    assert_eq!(kinds_of(f), vec![vec!["load m0", "call", "ret"]]);
    assert!(module.get_function_by_name("g").is_none());
    assert_eq!(module.name(), "mod");
}

#[test]
fn struct_tags() {
    assert!(lower("struct s {int a;}; int main(){ struct t {int b;}; return 0; }").is_ok());
    assert!(lower("int main(){ { struct t {int b;}; } struct t {int c;}; return 0; }").is_ok());
    assert_eq!(
        lower("struct s {int a;}; int main(){ struct s {int b;}; return 0; }").err(),
        Some(ErrorKind::StructExists)
    );
}

#[test]
fn a_char_is_a_value_like_an_int() {
    let module = lower("char f(char c){return c;}").unwrap();
    assert_eq!(
        kinds_of(module.get_function(module.get_function_by_name("f").unwrap())),
        vec![vec!["load m0", "ret"]]
    );
    assert_eq!(
        codegen(&module),
        "// ModuleName = 'mod'\n\nchar f(char a0) {\n  int m[1];\n  m[0] = a0;\nblock0:;\n  int r0 = m[0];\n  return r0;\n}"
    );
    assert!(lower("char f(){char c; return c;}").is_ok());
    assert!(lower("int main(){char c; return 0;}").is_ok());
    assert!(lower("int f(char c){return 0;}").is_ok());
    assert!(lower("int f(char c){return (int)c + 1;}").is_ok());
    assert!(lower("char f(char c){char d = c; d = c; return (char)d;}").is_ok());
    assert!(lower("char g(char c); char f(char c){return g(c);}").is_ok());
    assert!(lower("char f(char c, char d){return 1 ? c : d;}").is_ok());
    assert!(lower("int f(char c){if (c) {return 1;} return 0;}").is_ok());
}

#[test]
fn types_are_checked_where_values_meet() {
    assert_eq!(lower("char f(){return 1;}").err(), Some(ErrorKind::ReturnTypeDiffers));
    assert_eq!(lower("int f(char c){return c;}").err(), Some(ErrorKind::ReturnTypeDiffers));
    assert_eq!(
        lower("int main(){char c; c = 1; return 0;}").err(),
        Some(ErrorKind::AssignmentMismatch)
    );
    assert_eq!(
        lower("int main(){char c = 1; return 0;}").err(),
        Some(ErrorKind::AssignmentMismatch)
    );
    assert_eq!(
        lower("int f(char c){int x = c; return x;}").err(),
        Some(ErrorKind::AssignmentMismatch)
    );
    assert_eq!(
        lower("int f(char c){return c + 1;}").err(),
        Some(ErrorKind::ExpressionUnsupported)
    );
    assert_eq!(
        lower("int f(char c){return 1 < c;}").err(),
        Some(ErrorKind::ExpressionUnsupported)
    );
    assert_eq!(
        lower("int f(char c){return 1 ? c : 2;}").err(),
        Some(ErrorKind::TernaryMismatch)
    );
    assert_eq!(
        lower("int g(int a); int f(char c){return g(c);}").err(),
        Some(ErrorKind::ArgumentMismatch)
    );
    assert_eq!(lower("char f(int a){return (char)a;}").err(), Some(ErrorKind::CastUnsupported));
    // an error of lowering an operand comes before the error of its type
    assert_eq!(
        lower("int f(char c){return c + y;}").err(),
        Some(ErrorKind::VariableUndeclared)
    );
}
