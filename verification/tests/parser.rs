use minic::common::ErrorKind;
use minic::parse::{parse, Stmt, TopLevel, AST};
use minic::tokenize::Tokenizer;
use minic::ty::Type;

fn parsed(input: &str) -> Result<Vec<TopLevel>, ErrorKind> {
    parse(Tokenizer::new(input))
}

fn body_of(input: &str) -> Vec<Stmt> {
    let mut items = parsed(input).unwrap();
    assert_eq!(items.len(), 1);
    match items.remove(0) {
        TopLevel::FunDef(_, _, _, _, body) => body,
        _ => panic!("expecting a function definition"),
    }
}

fn expr_of(input: &str) -> AST {
    let mut body = body_of(&format!("int f() {{ {}; }}", input));
    assert_eq!(body.len(), 1);
    match body.remove(0) {
        Stmt::Expr(e) => e,
        _ => panic!("expecting an expression statement"),
    }
}

fn show(e: &AST) -> String {
    match e {
        AST::Ternary(c, a, b) => format!("({} ? {} : {})", show(c), show(a), show(b)),
        AST::Assign(a, b) => format!("({} = {})", show(a), show(b)),
        AST::Eq(a, b) => format!("({} == {})", show(a), show(b)),
        AST::Ne(a, b) => format!("({} != {})", show(a), show(b)),
        AST::Lt(a, b) => format!("({} < {})", show(a), show(b)),
        AST::Le(a, b) => format!("({} <= {})", show(a), show(b)),
        AST::Add(a, b) => format!("({} + {})", show(a), show(b)),
        AST::Sub(a, b) => format!("({} - {})", show(a), show(b)),
        AST::Mul(a, b) => format!("({} * {})", show(a), show(b)),
        AST::Div(a, b) => format!("({} / {})", show(a), show(b)),
        AST::Addr(a) => format!("&{}", show(a)),
        AST::Deref(a) => format!("*{}", show(a)),
        AST::Cast(_, a) => format!("(cast){}", show(a)),
        AST::Dot(a, m) => format!("{}.{}", show(a), m),
        AST::Block(stmts) => format!("({{{} statements}})", stmts.len()),
        AST::Call(f, args) => {
            format!("{}({})", f, args.iter().map(show).collect::<Vec<_>>().join(", "))
        }
        AST::Ident(n) => n.clone(),
        AST::Num(n) => format!("{}", n),
        AST::Str(s) => format!("{:?}", s),
    }
}

#[test]
fn empty_program() {
    assert_eq!(parsed("").unwrap().len(), 0);
    assert_eq!(parsed(" /* nothing */ ").unwrap().len(), 0);
}

#[test]
fn function_definition() {
    let items = parsed("int add(int a, int b) { return a + b; }").unwrap();
    assert_eq!(items.len(), 1);
    match &items[0] {
        TopLevel::FunDef(ret, name, param_tys, param_names, body) => {
            assert!(matches!(ret, Type::Int));
            assert_eq!(name, "add");
            assert_eq!(param_tys.len(), 2);
            assert!(matches!(param_tys[0], Type::Int));
            assert_eq!(param_names, &vec!["a".to_string(), "b".to_string()]);
            assert_eq!(body.len(), 1);
            match &body[0] {
                Stmt::Return(e) => assert_eq!(show(e), "(a + b)"),
                _ => panic!("expecting return"),
            }
        }
        _ => panic!("expecting a function definition"),
    }
}

#[test]
fn declarations_at_top_level() {
    let items = parsed("int f(int a); char c; int *p, a[3] = 1; struct s { int x; char y; };")
        .unwrap();
    assert_eq!(items.len(), 5);
    assert!(matches!(&items[0], TopLevel::FunDecl(Type::Int, n, tys) if n == "f" && tys.len() == 1));
    assert!(matches!(&items[1], TopLevel::VarDef(Type::Char, n, None) if n == "c"));
    assert!(matches!(&items[2], TopLevel::VarDef(Type::Pointer(_), n, None) if n == "p"));
    assert!(
        matches!(&items[3], TopLevel::VarDef(Type::Array(_, 3), n, Some(AST::Num(1))) if n == "a")
    );
    match &items[4] {
        TopLevel::StructDef(Type::Struct(Some(tag), Some((tys, names)))) => {
            assert_eq!(tag, "s");
            assert_eq!(tys.len(), 2);
            assert_eq!(names, &vec!["x".to_string(), "y".to_string()]);
        }
        _ => panic!("expecting a struct definition"),
    }
}

#[test]
fn precedence_and_associativity() {
    assert_eq!(show(&expr_of("1 + 2 * 3")), "(1 + (2 * 3))");
    assert_eq!(show(&expr_of("1 - 2 - 3")), "((1 - 2) - 3)");
    assert_eq!(show(&expr_of("1 * 2 / 3")), "((1 * 2) / 3)");
    assert_eq!(show(&expr_of("(1 + 2) * 3")), "((1 + 2) * 3)");
    assert_eq!(show(&expr_of("a = b = c")), "(a = (b = c))");
    assert_eq!(show(&expr_of("a == b != c")), "((a == b) != c)");
    assert_eq!(show(&expr_of("a < b == c")), "((a < b) == c)");
    assert_eq!(show(&expr_of("a ? b : c ? d : e")), "(a ? b : (c ? d : e))");
    assert_eq!(show(&expr_of("1+2+3+x")), "(((1 + 2) + 3) + x)");
}

#[test]
fn greater_than_swaps_the_operands() {
    assert_eq!(show(&expr_of("a > b")), "(b < a)");
    assert_eq!(show(&expr_of("a >= b")), "(b <= a)");
    assert_eq!(show(&expr_of("a < b")), "(a < b)");
    assert_eq!(show(&expr_of("a <= b")), "(a <= b)");
}

#[test]
fn compound_assignment_and_increments_are_rewritten() {
    assert_eq!(show(&expr_of("x += 2")), "(x = (x + 2))");
    assert_eq!(show(&expr_of("x -= 2")), "(x = (x - 2))");
    assert_eq!(show(&expr_of("x *= 2")), "(x = (x * 2))");
    assert_eq!(show(&expr_of("x /= 2")), "(x = (x / 2))");
    assert_eq!(show(&expr_of("++x")), "(x = (x + 1))");
    assert_eq!(show(&expr_of("--x")), "(x = (x - 1))");
    assert_eq!(show(&expr_of("x++")), "((x = (x + 1)) - 1)");
    assert_eq!(show(&expr_of("x--")), "((x = (x - 1)) + 1)");
}

#[test]
fn unary_operators() {
    assert_eq!(show(&expr_of("-x")), "(0 - x)");
    assert_eq!(show(&expr_of("+x")), "x");
    assert_eq!(show(&expr_of("&x")), "&x");
    assert_eq!(show(&expr_of("*p")), "*p");
    assert_eq!(show(&expr_of("(int)x")), "(cast)x");
    assert_eq!(show(&expr_of("- - x")), "(0 - (0 - x))");
}

#[test]
fn postfix_operators() {
    assert_eq!(show(&expr_of("a[i]")), "*(a + i)");
    assert_eq!(show(&expr_of("s.m")), "s.m");
    assert_eq!(show(&expr_of("a[1][2]")), "*(*(a + 1) + 2)");
    assert_eq!(show(&expr_of("f()")), "f()");
    assert_eq!(show(&expr_of("f(1, x, g(2))")), "f(1, x, g(2))");
    assert_eq!(show(&expr_of("\"hi\"")), "\"hi\"");
    assert_eq!(show(&expr_of("({ 1; 2; })")), "({2 statements})");
}

#[test]
fn statements() {
    let body = body_of(
        "int f() { int x = 1, y; if (x) y = 1; else y = 2; for (;;) break; while (x) continue; { ; } return y; }",
    );
    assert_eq!(body.len(), 6);
    match &body[0] {
        Stmt::VarDef(defs) => {
            assert_eq!(defs.len(), 2);
            assert!(matches!(&defs[0], (Type::Int, n, Some(AST::Num(1))) if n == "x"));
            assert!(matches!(&defs[1], (Type::Int, n, None) if n == "y"));
        }
        _ => panic!("expecting definitions"),
    }
    assert!(matches!(&body[1], Stmt::IfElse(AST::Ident(_), _, Some(_))));
    match &body[2] {
        Stmt::For(None, None, None, inner) => assert!(matches!(**inner, Stmt::Break)),
        _ => panic!("expecting for"),
    }
    match &body[3] {
        Stmt::For(None, Some(AST::Ident(_)), None, inner) => assert!(matches!(**inner, Stmt::Cont)),
        _ => panic!("expecting while"),
    }
    match &body[4] {
        Stmt::Block(stmts) => {
            assert_eq!(stmts.len(), 1);
            assert!(matches!(&stmts[0], Stmt::Block(inner) if inner.is_empty()));
        }
        _ => panic!("expecting block"),
    }
    assert!(matches!(&body[5], Stmt::Return(AST::Ident(_))));
}

#[test]
fn if_without_else_and_for_with_all_parts() {
    let body = body_of("int f() { if (1) return 1; for (i = 0; i < 3; i = i + 1) { } return 0; }");
    assert!(matches!(&body[0], Stmt::IfElse(_, _, None)));
    match &body[1] {
        Stmt::For(Some(init), Some(cond), Some(inc), _) => {
            assert_eq!(show(init), "(i = 0)");
            assert_eq!(show(cond), "(i < 3)");
            assert_eq!(show(inc), "(i = (i + 1))");
        }
        _ => panic!("expecting for"),
    }
}

#[test]
fn struct_statement_and_tag_reference() {
    let body = body_of("int f() { struct s { int a; }; return 0; }");
    assert!(matches!(&body[0], Stmt::StructDef(Type::Struct(Some(_), Some(_)))));
    let items = parsed("struct s x;").unwrap();
    assert!(matches!(&items[0], TopLevel::VarDef(Type::Struct(Some(_), None), _, None)));
}

#[test]
fn syntax_errors() {
    assert_eq!(parsed("x").unwrap_err(), ErrorKind::ExpectedTypeName);
    assert_eq!(parsed("int").unwrap_err(), ErrorKind::ExpectedIdentifier);
    assert_eq!(parsed("int x").unwrap_err(), ErrorKind::ExpectedPunctuator);
    assert_eq!(parsed("int x = 1").unwrap_err(), ErrorKind::ExpectedPunctuator);
    assert_eq!(parsed("int a[x];").unwrap_err(), ErrorKind::ExpectedNumber);
    assert_eq!(parsed("int a[4294967296];").unwrap_err(), ErrorKind::ArrayTooLong);
    assert_eq!(parsed("int x = ;").unwrap_err(), ErrorKind::ExpectedExpression);
    assert_eq!(parsed("int x = ({ });").unwrap_err(), ErrorKind::EmptyStatementExpression);
    assert_eq!(parsed("struct;").unwrap_err(), ErrorKind::StructUnnamed);
}

#[test]
fn an_error_in_a_function_body_shows_where_the_declaration_reading_stops() {
    // A body that does not parse makes the item a list of declarations,
    // which ends at the brace.
    assert_eq!(parsed("int f() { return ; }").unwrap_err(), ErrorKind::ExpectedPunctuator);
    assert_eq!(parsed("int f() { return 1 }").unwrap_err(), ErrorKind::ExpectedPunctuator);
    assert_eq!(parsed("int f() { return \"a; }").unwrap_err(), ErrorKind::ExpectedPunctuator);
}

#[test]
fn errors_of_the_tokenizer_come_through() {
    assert_eq!(parsed("int x = \"a;").unwrap_err(), ErrorKind::UnterminatedString);
    assert_eq!(parsed("int x = 1; /* ").unwrap_err(), ErrorKind::UnterminatedComment);
    assert_eq!(parsed("int x = 99999999999999999999;").unwrap_err(), ErrorKind::BadInteger);
    assert_eq!(parsed("int x = `;").unwrap_err(), ErrorKind::ExpectedExpression);
    assert_eq!(parsed("int x = \x01;").unwrap_err(), ErrorKind::UnexpectedCharacter);
}

#[test]
fn array_length_at_the_limit() {
    let items = parsed("int a[4294967295];").unwrap();
    assert!(matches!(&items[0], TopLevel::VarDef(Type::Array(_, 4294967295), _, None)));
}
