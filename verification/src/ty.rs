//! Value and function types, compared by structure.

use vstd::prelude::*;

verus! {

/// A type of the source language.
///
/// A function type carries the names of its parameters beside their types. A
/// struct type is a tag, a body, or both: the body pairs the members' types
/// with their names.
#[derive(Debug)]
pub enum Type {
    Int,
    Char,
    Pointer(Box<Type>),
    Array(Box<Type>, u32),
    FunTy(Box<Type>, Vec<Type>, Vec<String>),
    Struct(Option<String>, Option<(Vec<Type>, Vec<String>)>),
}

/// What a type is, to a contract.
pub enum TypeView {
    Int,
    Char,
    Pointer(Box<TypeView>),
    Array(Box<TypeView>, u32),
    FunTy(Box<TypeView>, Seq<TypeView>, Seq<Seq<char>>),
    Struct(Option<Seq<char>>, Option<(Seq<TypeView>, Seq<Seq<char>>)>),
}

/// What a type is, to a contract.
pub open spec fn type_view(t: Type) -> TypeView
    decreases t,
{
    match t {
        Type::Int => TypeView::Int,
        Type::Char => TypeView::Char,
        Type::Pointer(x) => TypeView::Pointer(Box::new(type_view(*x))),
        Type::Array(x, n) => TypeView::Array(Box::new(type_view(*x)), n),
        Type::FunTy(ret, params, names) => TypeView::FunTy(
            Box::new(type_view(*ret)),
            Seq::new(
                params@.len(),
                |i: int|
                    if 0 <= i < params@.len() {
                        type_view(params@[i])
                    } else {
                        TypeView::Int
                    },
            ),
            Seq::new(names@.len(), |i: int| names@[i]@),
        ),
        Type::Struct(name, body) => TypeView::Struct(
            match name {
                Some(n) => Some(n@),
                None => None,
            },
            match body {
                Some(b) => Some(
                    (
                        Seq::new(
                            b.0@.len(),
                            |i: int|
                                if 0 <= i < b.0@.len() {
                                    type_view(b.0@[i])
                                } else {
                                    TypeView::Int
                                },
                        ),
                        Seq::new(b.1@.len(), |i: int| b.1@[i]@),
                    ),
                ),
                None => None,
            },
        ),
    }
}

impl View for Type {
    type V = TypeView;

    open spec fn view(&self) -> TypeView {
        type_view(*self)
    }
}

/// Whether two types are equal by structure. Function types are compared by
/// their return and parameter types; the parameters' names do not count.
pub open spec fn same_type(a: Type, b: Type) -> bool
    decreases a,
{
    match (a, b) {
        (Type::Int, Type::Int) => true,
        (Type::Char, Type::Char) => true,
        (Type::Pointer(x), Type::Pointer(y)) => same_type(*x, *y),
        (Type::Array(x, n), Type::Array(y, m)) => n == m && same_type(*x, *y),
        (Type::FunTy(r1, w1, _), Type::FunTy(r2, w2, _)) => same_type(*r1, *r2) && same_types(
            w1@,
            w2@,
        ),
        (Type::Struct(n1, b1), Type::Struct(n2, b2)) => same_name(n1, n2) && match (b1, b2) {
            (None, None) => true,
            (Some(m1), Some(m2)) => same_types(m1.0@, m2.0@) && same_names(m1.1@, m2.1@),
            _ => false,
        },
        _ => false,
    }
}

/// Whether two sequences of types are equal by structure, place by place.
pub open spec fn same_types(a: Seq<Type>, b: Seq<Type>) -> bool
    decreases a,
{
    a.len() == b.len() && forall|i: int| 0 <= i < a.len() ==> same_type(#[trigger] a[i], b[i])
}

/// Whether two optional names are both absent or spell the same.
pub open spec fn same_name(a: Option<String>, b: Option<String>) -> bool {
    match (a, b) {
        (None, None) => true,
        (Some(x), Some(y)) => x@ == y@,
        _ => false,
    }
}

/// Whether two sequences of names spell the same, place by place.
pub open spec fn same_names(a: Seq<String>, b: Seq<String>) -> bool {
    a.len() == b.len() && forall|i: int| 0 <= i < a.len() ==> (#[trigger] a[i])@ == b[i]@
}

impl Type {
    /// A struct type. One with neither a tag nor a body names nothing, and
    /// is refused.
    pub fn new_struct(name: Option<String>, body: Option<(Vec<Type>, Vec<String>)>) -> (r: Option<
        Type,
    >)
        ensures
            r == if name is None && body is None {
                None
            } else {
                Some(Type::Struct(name, body))
            },
    {
        if name.is_none() && body.is_none() {
            None
        } else {
            Some(Type::Struct(name, body))
        }
    }

    /// A copy of the type.
    pub fn duplicate(&self) -> (r: Type)
        ensures
            same_type(*self, r),
            r@ == self@,
        decreases *self,
    {
        match self {
            Type::Int => Type::Int,
            Type::Char => Type::Char,
            Type::Pointer(x) => Type::Pointer(Box::new(x.duplicate())),
            Type::Array(x, n) => Type::Array(Box::new(x.duplicate()), *n),
            Type::FunTy(ret, params, names) => {
                let r = Type::FunTy(
                    Box::new(ret.duplicate()),
                    Self::duplicate_all(params),
                    duplicate_names(names),
                );
                proof {
                    assert(r@->FunTy_1 =~= self@->FunTy_1);
                    assert(r@->FunTy_2 =~= self@->FunTy_2);
                }
                r
            },
            Type::Struct(name, body) => {
                let name2 = match name {
                    Some(n) => Some(n.clone()),
                    None => None,
                };
                let body2 = match body {
                    Some(b) => Some((Self::duplicate_all(&b.0), duplicate_names(&b.1))),
                    None => None,
                };
                let r = Type::Struct(name2, body2);
                proof {
                    if body is Some {
                        assert(r@->Struct_1.unwrap().0 =~= self@->Struct_1.unwrap().0);
                        assert(r@->Struct_1.unwrap().1 =~= self@->Struct_1.unwrap().1);
                    }
                }
                r
            },
        }
    }

    /// A copy of a list of types.
    pub fn duplicate_all(tys: &Vec<Type>) -> (r: Vec<Type>)
        ensures
            same_types(tys@, r@),
            r@.len() == tys@.len(),
            forall|i: int| 0 <= i < tys@.len() ==> (#[trigger] r@[i])@ == tys@[i]@,
        decreases *tys,
    {
        let mut r: Vec<Type> = Vec::new();
        let mut i: usize = 0;
        while i < tys.len()
            invariant
                i <= tys@.len(),
                r@.len() == i,
                forall|j: int| 0 <= j < i ==> same_type(#[trigger] tys@[j], r@[j]),
                forall|j: int| 0 <= j < i ==> (#[trigger] r@[j])@ == tys@[j]@,
            decreases tys@.len() - i,
        {
            r.push(tys[i].duplicate());
            i += 1;
        }
        r
    }

    /// Structural equality, as `same_type` states it.
    pub fn same(&self, other: &Type) -> (r: bool)
        ensures
            r == same_type(*self, *other),
        decreases *self,
    {
        match (self, other) {
            (Type::Int, Type::Int) => true,
            (Type::Char, Type::Char) => true,
            (Type::Pointer(x), Type::Pointer(y)) => x.same(y),
            (Type::Array(x, n), Type::Array(y, m)) => *n == *m && x.same(y),
            (Type::FunTy(r1, w1, _), Type::FunTy(r2, w2, _)) => r1.same(r2) && Self::same_all(
                w1.as_slice(),
                w2.as_slice(),
            ),
            (Type::Struct(n1, b1), Type::Struct(n2, b2)) => {
                let names = match (n1, n2) {
                    (None, None) => true,
                    (Some(x), Some(y)) => *x == *y,
                    _ => false,
                };
                names && match (b1, b2) {
                    (None, None) => true,
                    (Some(m1), Some(m2)) => Self::same_all(m1.0.as_slice(), m2.0.as_slice()) && same_spelling(
                        &m1.1,
                        &m2.1,
                    ),
                    _ => false,
                }
            },
            _ => false,
        }
    }

    /// Structural equality of two lists of types.
    pub fn same_all(a: &[Type], b: &[Type]) -> (r: bool)
        ensures
            r == same_types(a@, b@),
        decreases a@,
    {
        if a.len() != b.len() {
            return false;
        }
        let mut i: usize = 0;
        while i < a.len()
            invariant
                i <= a@.len(),
                a@.len() == b@.len(),
                forall|j: int| 0 <= j < i ==> same_type(#[trigger] a@[j], b@[j]),
            decreases a@.len() - i,
        {
            if !a[i].same(&b[i]) {
                return false;
            }
            i += 1;
        }
        true
    }
}

/// A copy of a list of names.
pub fn duplicate_names(names: &Vec<String>) -> (r: Vec<String>)
    ensures
        same_names(names@, r@),
        r@.len() == names@.len(),
        forall|i: int| 0 <= i < names@.len() ==> (#[trigger] r@[i])@ == names@[i]@,
{
    let mut r: Vec<String> = Vec::new();
    let mut i: usize = 0;
    while i < names.len()
        invariant
            i <= names@.len(),
            r@.len() == i,
            forall|j: int| 0 <= j < i ==> (#[trigger] names@[j])@ == r@[j]@,
        decreases names@.len() - i,
    {
        r.push(names[i].clone());
        i += 1;
    }
    r
}

/// Whether two lists of names spell the same, place by place.
pub fn same_spelling(a: &Vec<String>, b: &Vec<String>) -> (r: bool)
    ensures
        r == same_names(a@, b@),
{
    if a.len() != b.len() {
        return false;
    }
    let mut i: usize = 0;
    while i < a.len()
        invariant
            i <= a@.len(),
            a@.len() == b@.len(),
            forall|j: int| 0 <= j < i ==> (#[trigger] a@[j])@ == b@[j]@,
        decreases a@.len() - i,
    {
        if a[i] != b[i] {
            return false;
        }
        i += 1;
    }
    true
}

} // verus!
