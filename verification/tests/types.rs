use minic::common::{ErrorKind, Scope, StringRef};
use minic::ty::Type;

fn fun_ty(ret: Type, params: Vec<Type>, names: Vec<&str>) -> Type {
    Type::FunTy(Box::new(ret), params, names.into_iter().map(|n| n.to_string()).collect())
}

#[test]
fn types_are_equal_by_structure() {
    assert!(Type::Int.same(&Type::Int));
    assert!(Type::Char.same(&Type::Char));
    assert!(!Type::Int.same(&Type::Char));
    let p = Type::Pointer(Box::new(Type::Int));
    assert!(p.same(&Type::Pointer(Box::new(Type::Int))));
    assert!(!p.same(&Type::Pointer(Box::new(Type::Char))));
    assert!(!p.same(&Type::Int));
    assert!(Type::Array(Box::new(Type::Int), 3).same(&Type::Array(Box::new(Type::Int), 3)));
    assert!(!Type::Array(Box::new(Type::Int), 3).same(&Type::Array(Box::new(Type::Int), 4)));
    assert!(!Type::Array(Box::new(Type::Int), 3).same(&Type::Array(Box::new(Type::Char), 3)));
    assert!(!Type::Array(Box::new(Type::Int), 3).same(&p));
}

#[test]
fn function_types_ignore_parameter_names() {
    let a = fun_ty(Type::Int, vec![Type::Int, Type::Char], vec!["a", "b"]);
    let b = fun_ty(Type::Int, vec![Type::Int, Type::Char], vec!["x", "y"]);
    let c = fun_ty(Type::Int, vec![Type::Int, Type::Char], vec![]);
    assert!(a.same(&b));
    assert!(a.same(&c));
    assert!(!a.same(&fun_ty(Type::Char, vec![Type::Int, Type::Char], vec!["a", "b"])));
    assert!(!a.same(&fun_ty(Type::Int, vec![Type::Int], vec!["a"])));
    assert!(!a.same(&fun_ty(Type::Int, vec![Type::Char, Type::Int], vec!["a", "b"])));
    assert!(Type::same_all(&[Type::Int], &[Type::Int]));
    assert!(!Type::same_all(&[Type::Int], &[]));
    assert!(Type::same_all(&[], &[]));
}

#[test]
fn struct_types_compare_tag_and_body() {
    let body = || Some((vec![Type::Int], vec!["a".to_string()]));
    let s = Type::new_struct(Some("s".to_string()), body()).unwrap();
    assert!(s.same(&Type::new_struct(Some("s".to_string()), body()).unwrap()));
    assert!(!s.same(&Type::new_struct(Some("t".to_string()), body()).unwrap()));
    assert!(!s.same(&Type::new_struct(None, body()).unwrap()));
    assert!(!s.same(&Type::new_struct(Some("s".to_string()), None).unwrap()));
    assert!(!s.same(
        &Type::new_struct(Some("s".to_string()), Some((vec![Type::Int], vec!["b".to_string()])))
            .unwrap()
    ));
    assert!(!s.same(
        &Type::new_struct(Some("s".to_string()), Some((vec![Type::Char], vec!["a".to_string()])))
            .unwrap()
    ));
    let tag = Type::new_struct(Some("s".to_string()), None).unwrap();
    assert!(tag.same(&Type::new_struct(Some("s".to_string()), None).unwrap()));
}

#[test]
fn a_struct_needs_a_tag_or_a_body() {
    assert!(Type::new_struct(None, None).is_none());
    assert!(Type::new_struct(Some("s".to_string()), None).is_some());
    assert!(Type::new_struct(None, Some((Vec::new(), Vec::new()))).is_some());
}

#[test]
fn a_copy_of_a_type_is_the_same_type() {
    let t = fun_ty(
        Type::Pointer(Box::new(Type::Array(Box::new(Type::Char), 2))),
        vec![Type::new_struct(Some("s".to_string()), None).unwrap()],
        vec!["p"],
    );
    assert!(t.duplicate().same(&t));
}

#[test]
fn scopes_nest() {
    let mut scope: Scope<u32> = Scope::new();
    assert_eq!(scope.depth(), 0);
    assert_eq!(scope.get_all("x"), None);
    scope.push();
    assert_eq!(scope.insert("x".to_string(), 1), None);
    assert_eq!(scope.insert("y".to_string(), 2), None);
    assert_eq!(scope.get("x"), Some(&1));
    scope.push();
    assert_eq!(scope.depth(), 2);
    assert_eq!(scope.get("x"), None);
    assert_eq!(scope.get_all("x"), Some(&1));
    assert_eq!(scope.insert("x".to_string(), 3), None);
    assert_eq!(scope.get("x"), Some(&3));
    assert_eq!(scope.get_all("x"), Some(&3));
    assert_eq!(scope.get_all("y"), Some(&2));
    assert_eq!(scope.get_all("z"), None);
    assert_eq!(scope.insert("x".to_string(), 4), Some(3));
    assert_eq!(scope.get("x"), Some(&4));
    scope.pop();
    assert_eq!(scope.get("x"), Some(&1));
    assert_eq!(scope.get_all("x"), Some(&1));
    scope.pop();
    assert_eq!(scope.depth(), 0);
    scope.pop();
    assert_eq!(scope.depth(), 0);
}

#[test]
fn string_views() {
    let base = "0123456789";
    let whole = StringRef::new(base);
    assert_eq!(whole.as_str(), base);
    assert_eq!(whole.substr(0..0).as_str(), "");
    assert_eq!(whole.substr(3..100).as_str(), "3456789");
    assert_eq!(whole.substr(..100).as_str(), base);
    assert_eq!(whole.substr(10..).as_str(), "");
    assert_eq!(whole.substr(2..8).substr(1..3).as_str(), "34");
    assert_eq!(whole.substr(2..8).substr(1..).as_str(), "34567");
    assert_eq!(whole.substr(2..8).substr(..2).as_str(), "23");
    assert_eq!(whole.substr(2..8).substr(..20).as_str(), "234567");
    assert_eq!(StringRef::new("").as_str(), "");
}

#[test]
fn every_error_has_a_message() {
    assert_eq!(ErrorKind::NoTerminator.message(), "no terminator in function");
    assert_eq!(ErrorKind::VariableExists.message(), "variable already exists");
    assert_eq!(
        ErrorKind::VariableUndeclared.message(),
        "variable should be declared before its first use"
    );
    assert_eq!(ErrorKind::RvalueAddress.message(), "cannot obtain address of rvalue");
    assert_eq!(
        ErrorKind::FunctionTypeDiffers.message(),
        "function type differs from the previous declaration"
    );
    assert_eq!(ErrorKind::UnexpectedCharacter.message(), "unexpected character");
    assert_eq!(
        ErrorKind::AssignmentMismatch.message(),
        "inconsistent types in operands of assignment"
    );
    assert_eq!(
        ErrorKind::TernaryMismatch.message(),
        "inconsistent types in arms of conditional expression"
    );
}

#[test]
fn string_views_count_in_bytes() {
    // two bytes for the first character, one for the second
    let base = "\u{e9}a";
    let whole = StringRef::new(base);
    assert_eq!(whole.as_str(), base);
    assert_eq!(whole.substr(2..3).as_str(), "a");
    assert_eq!(whole.substr(3..3).as_str(), "");
    assert_eq!(whole.substr(0..2).as_str(), "\u{e9}");
    assert_eq!(whole.substr(..2).as_str(), "\u{e9}");
    assert_eq!(whole.substr(2..).as_str(), "a");
    assert_eq!(whole.substr(2..9).as_str(), "a");
    assert_eq!(whole.substr(2..).substr(..1).as_str(), "a");
}
