//! What the stages of the compiler share: errors, views into text, and
//! scopes.

use core::ops::{Range, RangeFrom, RangeTo};
use vstd::prelude::*;
use vstd::string::{StrSliceExecFns, StringSliceAdditionalSpecFns};
use vstd::utf8::{
    decode_utf8, encode_utf8_decode_utf8, encode_utf8_valid_utf8, is_char_boundary,
    is_char_boundary_iff_not_is_continuation_byte, is_char_boundary_start_end_of_seq, valid_utf8,
    valid_utf8_split,
};

verus! {

/// Why a stage of the compiler gave up.
#[derive(Clone, Copy, Debug, PartialEq, Eq, Structural)]
pub enum ErrorKind {
    // Lex
    UnterminatedString,
    UnterminatedComment,
    BadInteger,
    UnexpectedCharacter,
    // Parse
    ExpectedIdentifier,
    ExpectedNumber,
    ExpectedPunctuator,
    ExpectedTypeName,
    ExpectedExpression,
    DeclaratorNotFunction,
    ArrayTooLong,
    EmptyStatementExpression,
    // Scope
    VariableExists,
    ParameterExists,
    FunctionExists,
    StructExists,
    StructMissing,
    StructUnnamed,
    VariableUndeclared,
    FunctionMissing,
    RvalueAddress,
    // Type
    FunctionTypeDiffers,
    ReturnTypeDiffers,
    ArgumentMismatch,
    AssignmentMismatch,
    TernaryMismatch,
    CastUnsupported,
    TypeUnsupported,
    ExpressionUnsupported,
    GlobalUnsupported,
    StatementExpressionValue,
    // Control
    NoTerminator,
    BreakOutsideLoop,
    ContinueOutsideLoop,
}

impl ErrorKind {
    /// The text of the message that a user is shown for each error.
    pub open spec fn text(self) -> Seq<char> {
        match self {
            ErrorKind::UnterminatedString => "missing terminating `\"` character"@,
            ErrorKind::UnterminatedComment => "unterminated block comment"@,
            ErrorKind::BadInteger => "failed to read integer"@,
            ErrorKind::UnexpectedCharacter => "unexpected character"@,
            ErrorKind::ExpectedIdentifier => "unexpected token, expecting identifier"@,
            ErrorKind::ExpectedNumber => "unexpected token, expecting number"@,
            ErrorKind::ExpectedPunctuator => "unexpected token, expecting punctuator"@,
            ErrorKind::ExpectedTypeName => "unexpected token, expecting `int`, `char` or `struct`"@,
            ErrorKind::ExpectedExpression =>
                "unexpected token, expecting `(`, identifier, number or string"@,
            ErrorKind::DeclaratorNotFunction => "declarator is not function"@,
            ErrorKind::ArrayTooLong => "failed to convert integer"@,
            ErrorKind::EmptyStatementExpression => "GNU statement expression is empty"@,
            ErrorKind::VariableExists => "variable already exists"@,
            ErrorKind::ParameterExists => "function parameter already exists"@,
            ErrorKind::FunctionExists => "function already exists"@,
            ErrorKind::StructExists => "struct already exists"@,
            ErrorKind::StructMissing => "struct does not exist"@,
            ErrorKind::StructUnnamed => "Both the name and body of the struct are missing"@,
            ErrorKind::VariableUndeclared => "variable should be declared before its first use"@,
            ErrorKind::FunctionMissing => "function does not exist"@,
            ErrorKind::RvalueAddress => "cannot obtain address of rvalue"@,
            ErrorKind::FunctionTypeDiffers =>
                "function type differs from the previous declaration"@,
            ErrorKind::ReturnTypeDiffers => "return type differs from the declaration"@,
            ErrorKind::ArgumentMismatch => "argument types mismatch function parameter types"@,
            ErrorKind::AssignmentMismatch => "inconsistent types in operands of assignment"@,
            ErrorKind::TernaryMismatch => "inconsistent types in arms of conditional expression"@,
            ErrorKind::CastUnsupported => "cast not supported"@,
            ErrorKind::TypeUnsupported => "unexpected type, expecting int type"@,
            ErrorKind::ExpressionUnsupported =>
                "unexpected type in expression, expecting int type"@,
            ErrorKind::GlobalUnsupported => "global variables are not supported"@,
            ErrorKind::StatementExpressionValue =>
                "GNU statement expression does not end with expression statement"@,
            ErrorKind::NoTerminator => "no terminator in function"@,
            ErrorKind::BreakOutsideLoop => "break statement not within a loop"@,
            ErrorKind::ContinueOutsideLoop => "continue statement not within a loop"@,
        }
    }

    /// The message that a user is shown.
    pub fn message(&self) -> (r: &'static str)
        ensures
            r@ == self.text(),
    {
        match self {
            ErrorKind::UnterminatedString => "missing terminating `\"` character",
            ErrorKind::UnterminatedComment => "unterminated block comment",
            ErrorKind::BadInteger => "failed to read integer",
            ErrorKind::UnexpectedCharacter => "unexpected character",
            ErrorKind::ExpectedIdentifier => "unexpected token, expecting identifier",
            ErrorKind::ExpectedNumber => "unexpected token, expecting number",
            ErrorKind::ExpectedPunctuator => "unexpected token, expecting punctuator",
            ErrorKind::ExpectedTypeName => "unexpected token, expecting `int`, `char` or `struct`",
            ErrorKind::ExpectedExpression =>
                "unexpected token, expecting `(`, identifier, number or string",
            ErrorKind::DeclaratorNotFunction => "declarator is not function",
            ErrorKind::ArrayTooLong => "failed to convert integer",
            ErrorKind::EmptyStatementExpression => "GNU statement expression is empty",
            ErrorKind::VariableExists => "variable already exists",
            ErrorKind::ParameterExists => "function parameter already exists",
            ErrorKind::FunctionExists => "function already exists",
            ErrorKind::StructExists => "struct already exists",
            ErrorKind::StructMissing => "struct does not exist",
            ErrorKind::StructUnnamed => "Both the name and body of the struct are missing",
            ErrorKind::VariableUndeclared => "variable should be declared before its first use",
            ErrorKind::FunctionMissing => "function does not exist",
            ErrorKind::RvalueAddress => "cannot obtain address of rvalue",
            ErrorKind::FunctionTypeDiffers => "function type differs from the previous declaration",
            ErrorKind::ReturnTypeDiffers => "return type differs from the declaration",
            ErrorKind::ArgumentMismatch => "argument types mismatch function parameter types",
            ErrorKind::AssignmentMismatch => "inconsistent types in operands of assignment",
            ErrorKind::TernaryMismatch => "inconsistent types in arms of conditional expression",
            ErrorKind::CastUnsupported => "cast not supported",
            ErrorKind::TypeUnsupported => "unexpected type, expecting int type",
            ErrorKind::ExpressionUnsupported => "unexpected type in expression, expecting int type",
            ErrorKind::GlobalUnsupported => "global variables are not supported",
            ErrorKind::StatementExpressionValue =>
                "GNU statement expression does not end with expression statement",
            ErrorKind::NoTerminator => "no terminator in function",
            ErrorKind::BreakOutsideLoop => "break statement not within a loop",
            ErrorKind::ContinueOutsideLoop => "continue statement not within a loop",
        }
    }
}

/// What a stage of the compiler returns: its result, or why it gave up.
pub type Expected<T> = Result<T, ErrorKind>;

// ----- StringRef -----

/// A view of a stretch of a string slice, given by the byte positions of its
/// first byte and of the one after its last. Both lie on character
/// boundaries.
#[derive(Clone, Copy, Debug)]
pub struct StringRef<'a> {
    base: &'a str,
    start: usize,
    end: usize,
}

impl<'a> View for StringRef<'a> {
    type V = Seq<char>;

    /// The characters in view.
    open spec fn view(&self) -> Seq<char> {
        decode_utf8(self.bytes())
    }
}

/// In valid UTF-8 text, a position within a stretch that starts and ends on
/// character boundaries is a character boundary of the stretch exactly
/// where it is one of the text.
pub proof fn lemma_boundary_within(bytes: Seq<u8>, from: int, to: int, k: int)
    requires
        valid_utf8(bytes),
        0 <= from <= to <= bytes.len(),
        is_char_boundary(bytes, from),
        is_char_boundary(bytes, to),
        0 <= k <= to - from,
    ensures
        valid_utf8(bytes.subrange(from, to)),
        is_char_boundary(bytes.subrange(from, to), k) <==> is_char_boundary(bytes, from + k),
{
    let head = bytes.subrange(0, to);
    valid_utf8_split(bytes, to);
    is_char_boundary_start_end_of_seq(head);
    // the boundaries of the text up to `to` are those of the text
    assert(is_char_boundary(head, from)) by {
        if from < to {
            is_char_boundary_iff_not_is_continuation_byte(head, from);
            is_char_boundary_iff_not_is_continuation_byte(bytes, from);
        }
    }
    assert(is_char_boundary(head, from + k) <==> is_char_boundary(bytes, from + k)) by {
        if from + k < to {
            is_char_boundary_iff_not_is_continuation_byte(head, from + k);
            is_char_boundary_iff_not_is_continuation_byte(bytes, from + k);
        }
    }
    let part = head.subrange(from, to);
    valid_utf8_split(head, from);
    assert(part =~= bytes.subrange(from, to));
    is_char_boundary_start_end_of_seq(part);
    if k < to - from {
        is_char_boundary_iff_not_is_continuation_byte(part, k);
        is_char_boundary_iff_not_is_continuation_byte(head, from + k);
    }
}

impl<'a> StringRef<'a> {
    #[verifier::type_invariant]
    spec fn within(self) -> bool {
        &&& self.start <= self.end <= self.base.spec_bytes().len()
        &&& is_char_boundary(self.base.spec_bytes(), self.start as int)
        &&& is_char_boundary(self.base.spec_bytes(), self.end as int)
    }

    /// The bytes in view.
    pub closed spec fn bytes(&self) -> Seq<u8> {
        self.base.spec_bytes().subrange(self.start as int, self.end as int)
    }

    /// A view of the whole of `base`.
    pub fn new(base: &'a str) -> (s: StringRef<'a>)
        ensures
            s.bytes() == base.spec_bytes(),
            s@ == base@,
    {
        let end = base.as_bytes().len();
        proof {
            encode_utf8_valid_utf8(base@);
            encode_utf8_decode_utf8(base@);
            is_char_boundary_start_end_of_seq(base.spec_bytes());
            assert(base.spec_bytes().subrange(0, end as int) =~= base.spec_bytes());
        }
        StringRef { base, start: 0, end }
    }

    /// The text in view, as a string slice.
    pub fn as_str(&self) -> (r: &'a str)
        ensures
            r.spec_bytes() == self.bytes(),
            r@ == self@,
    {
        proof {
            use_type_invariant(self);
            encode_utf8_valid_utf8(self.base@);
            lemma_boundary_within(self.base.spec_bytes(), 0, self.end as int, self.start as int);
        }
        let (head, _) = self.base.split_at(self.end);
        let (_, r) = head.split_at(self.start);
        proof {
            assert(r.spec_bytes() =~= self.bytes());
            encode_utf8_decode_utf8(r@);
        }
        r
    }

    /// The part of the view that `index` selects.
    pub fn substr<Idx: SubStr<StringRef<'a>>>(&self, index: Idx) -> (r: StringRef<'a>)
        requires
            index.selects(self),
        ensures
            index.selected(self, &r),
    {
        index.substr(self)
    }

    /// The view from byte `from` to byte `to` of this one. The positions
    /// count from the start of this view.
    fn part(&self, from: usize, to: usize) -> (r: StringRef<'a>)
        requires
            from <= to <= self.bytes().len(),
            is_char_boundary(self.bytes(), from as int),
            is_char_boundary(self.bytes(), to as int),
        ensures
            r.bytes() == self.bytes().subrange(from as int, to as int),
    {
        proof {
            use_type_invariant(self);
            encode_utf8_valid_utf8(self.base@);
            let all = self.base.spec_bytes();
            lemma_boundary_within(all, self.start as int, self.end as int, from as int);
            lemma_boundary_within(all, self.start as int, self.end as int, to as int);
            assert(all.subrange(self.start + from, self.start + to) =~= self.bytes().subrange(
                from as int,
                to as int,
            ));
        }
        StringRef { base: self.base, start: self.start + from, end: self.start + to }
    }

    /// How many bytes are in view. The view's two ends are character
    /// boundaries of it.
    fn len(&self) -> (n: usize)
        ensures
            n == self.bytes().len(),
            is_char_boundary(self.bytes(), 0),
            is_char_boundary(self.bytes(), n as int),
    {
        proof {
            use_type_invariant(self);
            encode_utf8_valid_utf8(self.base@);
            lemma_boundary_within(self.base.spec_bytes(), self.start as int, self.end as int, 0);
            is_char_boundary_start_end_of_seq(self.bytes());
        }
        self.end - self.start
    }
}

/// A range of positions that selects part of a `Str`.
pub trait SubStr<Str> where Str: ?Sized {
    /// Whether the range can be applied to `s`.
    spec fn selects(&self, s: &Str) -> bool;

    /// Whether `r` is the part of `s` that the range selects.
    spec fn selected(&self, s: &Str, r: &Str) -> bool;

    fn substr(&self, s: &Str) -> (r: Str) where Str: Sized
        requires
            self.selects(s),
        ensures
            self.selected(s, &r),
    ;
}

/// The position `to`, cut off at the end of a text of `len` bytes.
pub open spec fn cut(len: nat, to: int) -> int {
    if to < len {
        to
    } else {
        len as int
    }
}

/// Whether position `k` lies on a character boundary of the text `bytes`:
/// at its start, at its end, or at the first byte of a character.
pub open spec fn splits(bytes: Seq<u8>, k: int) -> bool {
    k == 0 || k == bytes.len() || is_char_boundary(bytes, k)
}

/// The bytes `from` up to `to` of `s`, where `to` is cut off at the end of
/// `s`.
pub open spec fn stretch(s: Seq<u8>, from: int, to: int) -> Seq<u8> {
    s.subrange(from, cut(s.len(), to))
}

/// The range `start..end` selects the bytes from `start` up to `end`, or up
/// to the end of the text where `end` lies beyond it. Both ends must lie on
/// character boundaries.
impl<'a> SubStr<StringRef<'a>> for Range<usize> {
    open spec fn selects(&self, s: &StringRef<'a>) -> bool {
        &&& self.start <= self.end
        &&& self.start <= s.bytes().len()
        &&& splits(s.bytes(), self.start as int)
        &&& splits(s.bytes(), cut(s.bytes().len(), self.end as int))
    }

    open spec fn selected(&self, s: &StringRef<'a>, r: &StringRef<'a>) -> bool {
        r.bytes() == stretch(s.bytes(), self.start as int, self.end as int)
    }

    fn substr(&self, s: &StringRef<'a>) -> (r: StringRef<'a>) {
        let len = s.len();
        let end = if self.end < len {
            self.end
        } else {
            len
        };
        s.part(self.start, end)
    }
}

#[verifier::external_type_specification]
#[verifier::reject_recursive_types(Idx)]
pub struct ExRangeFrom<Idx>(RangeFrom<Idx>);

#[verifier::external_type_specification]
#[verifier::reject_recursive_types(Idx)]
pub struct ExRangeTo<Idx>(RangeTo<Idx>);

/// The range `start..` selects the bytes from `start` on. It must lie on a
/// character boundary.
impl<'a> SubStr<StringRef<'a>> for RangeFrom<usize> {
    open spec fn selects(&self, s: &StringRef<'a>) -> bool {
        &&& self.start <= s.bytes().len()
        &&& splits(s.bytes(), self.start as int)
    }

    open spec fn selected(&self, s: &StringRef<'a>, r: &StringRef<'a>) -> bool {
        r.bytes() == s.bytes().subrange(self.start as int, s.bytes().len() as int)
    }

    fn substr(&self, s: &StringRef<'a>) -> (r: StringRef<'a>) {
        let len = s.len();
        s.part(self.start, len)
    }
}

/// The range `..end` selects the bytes up to `end`, or all of them where
/// `end` lies beyond the text. It must lie on a character boundary.
impl<'a> SubStr<StringRef<'a>> for RangeTo<usize> {
    open spec fn selects(&self, s: &StringRef<'a>) -> bool {
        splits(s.bytes(), cut(s.bytes().len(), self.end as int))
    }

    open spec fn selected(&self, s: &StringRef<'a>, r: &StringRef<'a>) -> bool {
        r.bytes() == stretch(s.bytes(), 0, self.end as int)
    }

    fn substr(&self, s: &StringRef<'a>) -> (r: StringRef<'a>) {
        let len = s.len();
        let end = if self.end < len {
            self.end
        } else {
            len
        };
        s.part(0, end)
    }
}

// ----- Scope -----

/// A stack of scopes, each mapping names to values. The innermost scope is
/// the last one.
pub struct Scope<V> {
    vars: Vec<Vec<(String, V)>>,
}

/// The map that the entries of one scope stand for.
pub open spec fn scope_map<V>(entries: Seq<(String, V)>) -> Map<Seq<char>, V>
    decreases entries.len(),
{
    if entries.len() == 0 {
        Map::empty()
    } else {
        scope_map(entries.drop_last()).insert(entries.last().0@, entries.last().1)
    }
}

/// The value that `name` has in the innermost scope that defines it.
pub open spec fn lookup_all<V>(scopes: Seq<Map<Seq<char>, V>>, name: Seq<char>) -> Option<V>
    decreases scopes.len(),
{
    if scopes.len() == 0 {
        None
    } else if scopes.last().contains_key(name) {
        Some(scopes.last()[name])
    } else {
        lookup_all(scopes.drop_last(), name)
    }
}

/// The position in `entries` of the last entry for `name`, if there is one.
fn find_entry<V>(entries: &Vec<(String, V)>, name: &str) -> (r: Option<usize>)
    ensures
        match r {
            Some(i) => i < entries@.len() && scope_map(entries@).contains_key(name@) && scope_map(
                entries@,
            )[name@] == entries@[i as int].1 && entries@[i as int].0@ == name@,
            None => !scope_map(entries@).contains_key(name@),
        },
{
    let mut i: usize = entries.len();
    assert(entries@.subrange(0, i as int) =~= entries@);
    while i > 0
        invariant
            i <= entries@.len(),
            scope_map(entries@).contains_key(name@) == scope_map(
                entries@.subrange(0, i as int),
            ).contains_key(name@),
            scope_map(entries@).contains_key(name@) ==> scope_map(entries@)[name@] == scope_map(
                entries@.subrange(0, i as int),
            )[name@],
        decreases i,
    {
        let ghost prefix = entries@.subrange(0, i as int);
        assert(prefix.drop_last() =~= entries@.subrange(0, i - 1));
        assert(prefix.last() == entries@[i - 1]);
        i -= 1;
        if crate::text::str_eq(entries[i].0.as_str(), name) {
            return Some(i);
        }
    }
    None
}

impl<V> View for Scope<V> {
    type V = Seq<Map<Seq<char>, V>>;

    closed spec fn view(&self) -> Seq<Map<Seq<char>, V>> {
        self.vars@.map_values(|entries: Vec<(String, V)>| scope_map(entries@))
    }
}

impl<V> Scope<V> {
    /// A stack without scopes.
    pub fn new() -> (s: Scope<V>)
        ensures
            s@.len() == 0,
    {
        Scope { vars: Vec::new() }
    }

    /// The number of scopes.
    pub fn depth(&self) -> (r: usize)
        ensures
            r == self@.len(),
    {
        self.vars.len()
    }

    /// Opens a scope without names.
    pub fn push(&mut self)
        ensures
            final(self)@ == old(self)@.push(Map::empty()),
    {
        let entries: Vec<(String, V)> = Vec::new();
        self.vars.push(entries);
        assert(self@ =~= old(self)@.push(Map::empty()));
    }

    /// Closes the innermost scope. A stack without scopes stays as it is.
    pub fn pop(&mut self)
        ensures
            final(self)@ == if old(self)@.len() > 0 {
                old(self)@.drop_last()
            } else {
                old(self)@
            },
    {
        let _ = self.vars.pop();
        assert(self@ =~= if old(self)@.len() > 0 {
            old(self)@.drop_last()
        } else {
            old(self)@
        });
    }

    /// Gives `k` the value `v` in the innermost scope, and returns the value
    /// that it had there.
    pub fn insert(&mut self, k: String, v: V) -> (r: Option<V>)
        requires
            old(self)@.len() > 0,
        ensures
            final(self)@ == old(self)@.update(
                old(self)@.len() - 1,
                old(self)@.last().insert(k@, v),
            ),
            r == if old(self)@.last().contains_key(k@) {
                Some(old(self)@.last()[k@])
            } else {
                None
            },
    {
        let mut top = self.vars.pop().unwrap();
        let ghost rest = self@;
        let ghost before = top@;
        let found = find_entry(&top, k.as_str());
        let r = match found {
            Some(i) => {
                let (_, old_value) = top.remove(i);
                proof {
                    lemma_scope_map_remove(before, i as int);
                }
                Some(old_value)
            },
            None => None,
        };
        let ghost between = top@;
        top.push((k, v));
        assert(top@.drop_last() =~= between);
        self.vars.push(top);
        proof {
            assert(scope_map(top@) == scope_map(between).insert(k@, v));
            assert(scope_map(between).insert(k@, v) =~= scope_map(before).insert(k@, v)) by {
                assert forall|name: Seq<char>| name != k@ implies (#[trigger] scope_map(
                    between,
                ).contains_key(name) == scope_map(before).contains_key(name)) && (scope_map(
                    before,
                ).contains_key(name) ==> scope_map(between)[name] == scope_map(before)[name]) by {
                    if found is Some {
                        assert(scope_map(before.remove(found.unwrap() as int)).contains_key(name)
                            == scope_map(before).contains_key(name));
                    }
                }
            }
            assert(self@ =~= old(self)@.update(
                old(self)@.len() - 1,
                old(self)@.last().insert(k@, v),
            ));
        }
        r
    }

    /// The value that `k` has in the innermost scope.
    pub fn get(&self, k: &str) -> (r: Option<&V>)
        requires
            self@.len() > 0,
        ensures
            r == if self@.last().contains_key(k@) {
                Some(&self@.last()[k@])
            } else {
                None
            },
    {
        let top = &self.vars[self.vars.len() - 1];
        match find_entry(top, k) {
            Some(i) => Some(&top[i].1),
            None => None,
        }
    }

    /// The value that `k` has in the innermost scope that defines it.
    pub fn get_all(&self, k: &str) -> (r: Option<&V>)
        ensures
            r == match lookup_all(self@, k@) {
                Some(v) => Some(&v),
                None => None,
            },
    {
        let mut d: usize = self.vars.len();
        assert(self@.subrange(0, d as int) =~= self@);
        while d > 0
            invariant
                d <= self@.len(),
                self@.len() == self.vars@.len(),
                lookup_all(self@, k@) == lookup_all(self@.subrange(0, d as int), k@),
            decreases d,
        {
            let ghost prefix = self@.subrange(0, d as int);
            assert(prefix.drop_last() =~= self@.subrange(0, d - 1));
            assert(prefix.last() == self@[d - 1]);
            d -= 1;
            let entries = &self.vars[d];
            match find_entry(entries, k) {
                Some(i) => {
                    return Some(&entries[i].1);
                },
                None => {},
            }
        }
        None
    }
}

/// Taking out the last entry for a name leaves the other names as they
/// were; the name itself then has the value of an earlier entry, if any.
pub proof fn lemma_scope_map_remove<V>(entries: Seq<(String, V)>, i: int)
    requires
        0 <= i < entries.len(),
    ensures
        forall|name: Seq<char>|
            name != entries[i].0@ ==> (#[trigger] scope_map(entries.remove(i)).contains_key(name)
                == scope_map(entries).contains_key(name)) && (scope_map(entries).contains_key(name)
                ==> scope_map(entries.remove(i))[name] == scope_map(entries)[name]),
    decreases entries.len(),
{
    let r = entries.remove(i);
    let whole = scope_map(entries);
    let inner = scope_map(entries.drop_last());
    assert(whole == inner.insert(entries.last().0@, entries.last().1));
    if i == entries.len() - 1 {
        assert(r =~= entries.drop_last());
    } else {
        let shorter = entries.drop_last().remove(i);
        assert(r.drop_last() =~= shorter);
        assert(r.last() == entries.last());
        assert(scope_map(r) == scope_map(shorter).insert(entries.last().0@, entries.last().1));
        lemma_scope_map_remove(entries.drop_last(), i);
        assert forall|name: Seq<char>| name != entries[i].0@ implies (#[trigger] scope_map(
            r,
        ).contains_key(name) == whole.contains_key(name)) && (whole.contains_key(name)
            ==> scope_map(r)[name] == whole[name]) by {
            assert(scope_map(shorter).contains_key(name) == inner.contains_key(name));
        }
    }
}

} // verus!
