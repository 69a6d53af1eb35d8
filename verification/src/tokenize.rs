//! The tokenizer: a cursor over the tokens of a source text.
//!
//! The text is read as bytes, and what counts in it is ASCII: a byte above
//! 127 is an unexpected character wherever it stands outside a comment.

use crate::common::{ErrorKind, Expected};
use crate::text::{str_eq, string_push};
use vstd::prelude::*;
use vstd::string::{StrSliceExecFns, StringSliceAdditionalSpecFns};

verus! {

/// A token of the source text.
#[derive(Debug, PartialEq)]
pub enum Token {
    Eof,
    Keyword(String),
    Ident(String),
    Num(u64),
    Str(String),
    Punct(String),
}

/// What a token is, to a contract.
pub enum TokenView {
    Eof,
    Keyword(Seq<char>),
    Ident(Seq<char>),
    Num(u64),
    Str(Seq<char>),
    Punct(Seq<char>),
}

impl View for Token {
    type V = TokenView;

    open spec fn view(&self) -> TokenView {
        match *self {
            Token::Eof => TokenView::Eof,
            Token::Keyword(s) => TokenView::Keyword(s@),
            Token::Ident(s) => TokenView::Ident(s@),
            Token::Num(n) => TokenView::Num(n),
            Token::Str(s) => TokenView::Str(s@),
            Token::Punct(s) => TokenView::Punct(s@),
        }
    }
}

impl Token {
    /// A copy of the token.
    pub fn duplicate(&self) -> (t: Token)
        ensures
            t@ == self@,
    {
        match self {
            Token::Eof => Token::Eof,
            Token::Keyword(s) => Token::Keyword(s.clone()),
            Token::Ident(s) => Token::Ident(s.clone()),
            Token::Num(n) => Token::Num(*n),
            Token::Str(s) => Token::Str(s.clone()),
            Token::Punct(s) => Token::Punct(s.clone()),
        }
    }
}

// ----- classes of bytes -----

/// The classes of bytes that the tokenizer scans runs of.
#[derive(Clone, Copy, Debug, PartialEq, Eq, Structural)]
pub enum Class {
    /// A letter, a digit or an underscore.
    Word,
    /// A decimal digit.
    Digit,
}

pub open spec fn is_space(b: u8) -> bool {
    b == 0x20 || b == 0x09 || b == 0x0a || b == 0x0c || b == 0x0d
}

pub open spec fn is_digit(b: u8) -> bool {
    0x30 <= b <= 0x39
}

pub open spec fn is_word_start(b: u8) -> bool {
    b == 0x5f || (0x41 <= b <= 0x5a) || (0x61 <= b <= 0x7a)
}

pub open spec fn is_punct(b: u8) -> bool {
    (0x21 <= b <= 0x2f) || (0x3a <= b <= 0x40) || (0x5b <= b <= 0x60) || (0x7b <= b <= 0x7e)
}

pub open spec fn in_class(class: Class, b: u8) -> bool {
    match class {
        Class::Word => is_word_start(b) || is_digit(b),
        Class::Digit => is_digit(b),
    }
}

/// The end of the run of bytes of `class` that starts at `pos`.
pub open spec fn run_end(s: Seq<u8>, pos: int, class: Class) -> int
    decreases s.len() - pos,
{
    if 0 <= pos < s.len() && in_class(class, s[pos]) {
        run_end(s, pos + 1, class)
    } else {
        pos
    }
}

/// The bytes of `s` from `from` up to `to`, as characters.
pub open spec fn text(s: Seq<u8>, from: int, to: int) -> Seq<char> {
    s.subrange(from, to).map_values(|b: u8| b as char)
}

/// The number that the decimal digits of `s` from `from` up to `to` spell.
pub open spec fn number(s: Seq<u8>, from: int, to: int) -> nat
    decreases to - from,
{
    if from >= to {
        0
    } else {
        number(s, from, to - 1) * 10 + (s[to - 1] - 0x30) as nat
    }
}

pub open spec fn is_keyword(w: Seq<char>) -> bool {
    w == "return"@ || w == "if"@ || w == "else"@ || w == "for"@ || w == "while"@ || w == "break"@
        || w == "continue"@ || w == "int"@ || w == "char"@ || w == "struct"@
}

pub open spec fn is_two_char_op(w: Seq<char>) -> bool {
    w == "=="@ || w == "!="@ || w == "<="@ || w == ">="@ || w == "+="@ || w == "-="@ || w == "*="@
        || w == "/="@ || w == "++"@ || w == "--"@
}

// ----- what is skipped -----

/// Where the tokenizer is while it skips what is no token.
#[derive(Clone, Copy, Debug, PartialEq, Eq, Structural)]
pub enum Mode {
    /// Between tokens.
    Code,
    /// In a comment that runs to the end of the line.
    Line,
    /// In a comment that runs to `*/`.
    Block,
}

/// The position of the first byte from `pos` on that belongs to a token,
/// once white space and comments are skipped. A block comment that is not
/// closed is an error.
pub open spec fn skip_trivia(s: Seq<u8>, pos: int, mode: Mode) -> Result<int, ErrorKind>
    decreases s.len() - pos, (if mode is Line { 1nat } else { 0nat }),
{
    if pos < 0 || pos >= s.len() {
        if mode is Block {
            Err(ErrorKind::UnterminatedComment)
        } else {
            Ok(pos)
        }
    } else {
        match mode {
            Mode::Code => if is_space(s[pos]) {
                skip_trivia(s, pos + 1, Mode::Code)
            } else if s[pos] == 0x2f && pos + 1 < s.len() && s[pos + 1] == 0x2f {
                skip_trivia(s, pos + 2, Mode::Line)
            } else if s[pos] == 0x2f && pos + 1 < s.len() && s[pos + 1] == 0x2a {
                skip_trivia(s, pos + 2, Mode::Block)
            } else {
                Ok(pos)
            },
            Mode::Line => if s[pos] == 0x0a {
                skip_trivia(s, pos, Mode::Code)
            } else {
                skip_trivia(s, pos + 1, Mode::Line)
            },
            Mode::Block => if s[pos] == 0x2a && pos + 1 < s.len() && s[pos + 1] == 0x2f {
                skip_trivia(s, pos + 2, Mode::Code)
            } else {
                skip_trivia(s, pos + 1, Mode::Block)
            },
        }
    }
}

// ----- string literals -----

/// The position of the quote that closes the string literal whose contents
/// start at `pos`. A backslash takes the byte after it along. There is none
/// where the line or the text ends first.
pub open spec fn string_end(s: Seq<u8>, pos: int) -> Option<int>
    decreases s.len() - pos,
{
    if pos < 0 || pos >= s.len() {
        None
    } else if s[pos] == 0x22 {
        Some(pos)
    } else if s[pos] == 0x0a {
        None
    } else if s[pos] == 0x5c {
        if pos + 1 < s.len() {
            string_end(s, pos + 2)
        } else {
            None
        }
    } else {
        string_end(s, pos + 1)
    }
}

/// The character that the escape `\c` stands for.
pub open spec fn escaped(c: u8) -> char {
    if c == 0x61 {
        7u8 as char
    } else if c == 0x62 {
        8u8 as char
    } else if c == 0x74 {
        9u8 as char
    } else if c == 0x6e {
        10u8 as char
    } else if c == 0x76 {
        11u8 as char
    } else if c == 0x66 {
        12u8 as char
    } else if c == 0x72 {
        13u8 as char
    } else if c == 0x30 {
        0u8 as char
    } else {
        c as char
    }
}

/// The characters that the contents of a string literal, the bytes of `s`
/// from `from` up to `to`, stand for.
pub open spec fn decoded(s: Seq<u8>, from: int, to: int) -> Seq<char>
    decreases to - from,
{
    if from >= to {
        Seq::empty()
    } else if s[from] == 0x5c && from + 1 < to {
        seq![escaped(s[from + 1])] + decoded(s, from + 2, to)
    } else {
        seq![s[from] as char] + decoded(s, from + 1, to)
    }
}

/// Whether every byte of `s` from `from` up to `to` is ASCII.
pub open spec fn all_ascii(s: Seq<u8>, from: int, to: int) -> bool {
    forall|i: int| from <= i < to ==> #[trigger] s[i] < 0x80
}

// ----- tokens -----

/// The token that starts at `pos`, where a token starts there, and the
/// position after it.
pub open spec fn token_at(s: Seq<u8>, pos: int) -> (Result<TokenView, ErrorKind>, int) {
    if pos < 0 || pos >= s.len() {
        (Ok(TokenView::Eof), s.len() as int)
    } else if is_word_start(s[pos]) {
        let end = run_end(s, pos, Class::Word);
        if is_keyword(text(s, pos, end)) {
            (Ok(TokenView::Keyword(text(s, pos, end))), end)
        } else {
            (Ok(TokenView::Ident(text(s, pos, end))), end)
        }
    } else if is_digit(s[pos]) {
        let end = run_end(s, pos, Class::Digit);
        if number(s, pos, end) <= u64::MAX {
            (Ok(TokenView::Num(number(s, pos, end) as u64)), end)
        } else {
            (Err(ErrorKind::BadInteger), end)
        }
    } else if s[pos] == 0x22 {
        match string_end(s, pos + 1) {
            Some(end) => if all_ascii(s, pos + 1, end) {
                (Ok(TokenView::Str(decoded(s, pos + 1, end))), end + 1)
            } else {
                (Err(ErrorKind::UnexpectedCharacter), end + 1)
            },
            None => (Err(ErrorKind::UnterminatedString), s.len() as int),
        }
    } else if is_punct(s[pos]) {
        if pos + 1 < s.len() && is_two_char_op(text(s, pos, pos + 2)) {
            (Ok(TokenView::Punct(text(s, pos, pos + 2))), pos + 2)
        } else {
            (Ok(TokenView::Punct(text(s, pos, pos + 1))), pos + 1)
        }
    } else {
        (Err(ErrorKind::UnexpectedCharacter), pos + 1)
    }
}

/// What the cursor shows: the token under it or the error met in its place,
/// where that token starts, and where the text goes on after it.
pub struct Lexed {
    pub item: Result<TokenView, ErrorKind>,
    pub start: int,
    pub next: int,
}

/// The first token of `s` from `pos` on.
pub open spec fn lex(s: Seq<u8>, pos: int) -> Lexed {
    match skip_trivia(s, pos, Mode::Code) {
        Ok(start) => Lexed { item: token_at(s, start).0, start, next: token_at(s, start).1 },
        Err(k) => Lexed { item: Err(k), start: s.len() as int, next: s.len() as int },
    }
}

/// The errors that reading tokens can meet.
pub open spec fn is_lex_error(k: ErrorKind) -> bool {
    k == ErrorKind::UnterminatedString || k == ErrorKind::UnterminatedComment || k
        == ErrorKind::BadInteger || k == ErrorKind::UnexpectedCharacter
}

// ----- scanning -----

/// A run ends at or after its start, within the text.
pub proof fn lemma_run_end(s: Seq<u8>, pos: int, class: Class)
    requires
        0 <= pos <= s.len(),
    ensures
        pos <= run_end(s, pos, class) <= s.len(),
        pos < s.len() && in_class(class, s[pos]) ==> pos < run_end(s, pos, class),
    decreases s.len() - pos,
{
    if pos < s.len() && in_class(class, s[pos]) {
        lemma_run_end(s, pos + 1, class);
    }
}

/// What is skipped ends at or after its start, within the text.
pub proof fn lemma_skip_trivia(s: Seq<u8>, pos: int, mode: Mode)
    requires
        0 <= pos <= s.len(),
    ensures
        skip_trivia(s, pos, mode) is Ok ==> pos <= skip_trivia(s, pos, mode).unwrap() <= s.len(),
        skip_trivia(s, pos, mode) is Err ==> skip_trivia(s, pos, mode)
            == Err::<int, ErrorKind>(ErrorKind::UnterminatedComment),
    decreases s.len() - pos, (if mode is Line { 1nat } else { 0nat }),
{
    if pos < s.len() {
        match mode {
            Mode::Code => if is_space(s[pos]) {
                lemma_skip_trivia(s, pos + 1, Mode::Code);
            } else if s[pos] == 0x2f && pos + 1 < s.len() && s[pos + 1] == 0x2f {
                lemma_skip_trivia(s, pos + 2, Mode::Line);
            } else if s[pos] == 0x2f && pos + 1 < s.len() && s[pos + 1] == 0x2a {
                lemma_skip_trivia(s, pos + 2, Mode::Block);
            },
            Mode::Line => if s[pos] == 0x0a {
                lemma_skip_trivia(s, pos, Mode::Code);
            } else {
                lemma_skip_trivia(s, pos + 1, Mode::Line);
            },
            Mode::Block => if s[pos] == 0x2a && pos + 1 < s.len() && s[pos + 1] == 0x2f {
                lemma_skip_trivia(s, pos + 2, Mode::Code);
            } else {
                lemma_skip_trivia(s, pos + 1, Mode::Block);
            },
        }
    }
}

/// The quote that closes a string literal stands at or after the start of
/// its contents, within the text.
pub proof fn lemma_string_end(s: Seq<u8>, pos: int)
    requires
        0 <= pos <= s.len(),
    ensures
        string_end(s, pos) is Some ==> pos <= string_end(s, pos).unwrap() < s.len(),
    decreases s.len() - pos,
{
    if pos < s.len() && s[pos] != 0x22 && s[pos] != 0x0a {
        if s[pos] == 0x5c {
            if pos + 1 < s.len() {
                lemma_string_end(s, pos + 2);
            }
        } else {
            lemma_string_end(s, pos + 1);
        }
    }
}

/// More digits spell no smaller a number.
pub proof fn lemma_number_grows(s: Seq<u8>, from: int, mid: int, to: int)
    requires
        from <= mid <= to,
        forall|i: int| from <= i < to ==> is_digit(#[trigger] s[i]),
    ensures
        number(s, from, mid) <= number(s, from, to),
    decreases to - mid,
{
    if mid < to {
        lemma_number_grows(s, from, mid, to - 1);
    }
}

/// A token that is no end of text is not empty, and ends within the text.
pub proof fn lemma_token_at(s: Seq<u8>, pos: int)
    requires
        0 <= pos <= s.len(),
    ensures
        pos <= token_at(s, pos).1 <= s.len(),
        token_at(s, pos).0 is Ok && token_at(s, pos).0.unwrap() != TokenView::Eof ==> pos
            < token_at(s, pos).1,
{
    lemma_run_end(s, pos, Class::Word);
    lemma_run_end(s, pos, Class::Digit);
    if pos < s.len() {
        lemma_string_end(s, pos + 1);
    }
}

/// Whether the byte is white space.
fn space(b: u8) -> (r: bool)
    ensures
        r == is_space(b),
{
    b == 0x20 || b == 0x09 || b == 0x0a || b == 0x0c || b == 0x0d
}

/// Whether the byte belongs to the class.
fn belongs(class: Class, b: u8) -> (r: bool)
    ensures
        r == in_class(class, b),
{
    let digit = 0x30 <= b && b <= 0x39;
    match class {
        Class::Word => b == 0x5f || (0x41 <= b && b <= 0x5a) || (0x61 <= b && b <= 0x7a) || digit,
        Class::Digit => digit,
    }
}

/// The end of the run of bytes of `class` that starts at `pos`.
fn scan_run(bytes: &[u8], pos: usize, class: Class) -> (end: usize)
    requires
        pos <= bytes@.len(),
    ensures
        end == run_end(bytes@, pos as int, class),
        pos <= end <= bytes@.len(),
        forall|i: int| pos <= i < end ==> in_class(class, #[trigger] bytes@[i]),
{
    let mut i = pos;
    while i < bytes.len() && belongs(class, bytes[i])
        invariant
            pos <= i <= bytes@.len(),
            run_end(bytes@, pos as int, class) == run_end(bytes@, i as int, class),
            forall|j: int| pos <= j < i ==> in_class(class, #[trigger] bytes@[j]),
        decreases bytes@.len() - i,
    {
        i += 1;
    }
    i
}

/// The position of the first byte from `pos` on that belongs to a token.
fn skip(bytes: &[u8], pos: usize) -> (r: Expected<usize>)
    requires
        pos <= bytes@.len(),
    ensures
        match skip_trivia(bytes@, pos as int, Mode::Code) {
            Ok(p) => r == Ok::<usize, ErrorKind>(p as usize) && pos <= p <= bytes@.len(),
            Err(k) => r == Err::<usize, ErrorKind>(k) && k == ErrorKind::UnterminatedComment,
        },
{
    let mut i = pos;
    let mut mode = Mode::Code;
    proof {
        lemma_skip_trivia(bytes@, pos as int, Mode::Code);
    }
    loop
        invariant
            pos <= i <= bytes@.len(),
            skip_trivia(bytes@, pos as int, Mode::Code) == skip_trivia(bytes@, i as int, mode),
            skip_trivia(bytes@, pos as int, Mode::Code) is Ok ==> pos <= skip_trivia(
                bytes@,
                pos as int,
                Mode::Code,
            ).unwrap() <= bytes@.len(),
        decreases bytes@.len() - i, (if mode is Line { 1nat } else { 0nat }),
    {
        if i >= bytes.len() {
            return match mode {
                Mode::Block => Err(ErrorKind::UnterminatedComment),
                _ => Ok(i),
            };
        }
        let b = bytes[i];
        let follows = i + 1 < bytes.len();
        match mode {
            Mode::Code => {
                if space(b) {
                    i += 1;
                } else if b == 0x2f && follows && bytes[i + 1] == 0x2f {
                    i += 2;
                    mode = Mode::Line;
                } else if b == 0x2f && follows && bytes[i + 1] == 0x2a {
                    i += 2;
                    mode = Mode::Block;
                } else {
                    return Ok(i);
                }
            },
            Mode::Line => {
                if b == 0x0a {
                    mode = Mode::Code;
                } else {
                    i += 1;
                }
            },
            Mode::Block => {
                if b == 0x2a && follows && bytes[i + 1] == 0x2f {
                    i += 2;
                    mode = Mode::Code;
                } else {
                    i += 1;
                }
            },
        }
    }
}

/// The position of the quote that closes the string literal whose contents
/// start at `pos`.
fn string_literal_end(bytes: &[u8], pos: usize) -> (r: Option<usize>)
    requires
        pos <= bytes@.len(),
    ensures
        match string_end(bytes@, pos as int) {
            Some(e) => r == Some(e as usize) && pos <= e < bytes@.len(),
            None => r is None,
        },
{
    let mut i = pos;
    proof {
        lemma_string_end(bytes@, pos as int);
    }
    while i < bytes.len()
        invariant
            pos <= i <= bytes@.len(),
            string_end(bytes@, pos as int) == string_end(bytes@, i as int),
            string_end(bytes@, pos as int) is Some ==> pos <= string_end(
                bytes@,
                pos as int,
            ).unwrap() < bytes@.len(),
        decreases bytes@.len() - i,
    {
        let b = bytes[i];
        if b == 0x22 {
            return Some(i);
        } else if b == 0x0a {
            return None;
        } else if b == 0x5c {
            if i + 1 < bytes.len() {
                i += 2;
            } else {
                return None;
            }
        } else {
            i += 1;
        }
    }
    None
}

/// Whether every byte from `from` up to `to` is ASCII.
fn ascii_range(bytes: &[u8], from: usize, to: usize) -> (r: bool)
    requires
        from <= to <= bytes@.len(),
    ensures
        r == all_ascii(bytes@, from as int, to as int),
{
    let mut i = from;
    while i < to
        invariant
            from <= i <= to <= bytes@.len(),
            forall|j: int| from <= j < i ==> #[trigger] bytes@[j] < 0x80,
        decreases to - i,
    {
        if bytes[i] >= 0x80 {
            return false;
        }
        i += 1;
    }
    true
}

/// The character that the escape `\c` stands for.
fn unescape(c: u8) -> (r: char)
    ensures
        r == escaped(c),
{
    if c == 0x61 {
        7u8 as char
    } else if c == 0x62 {
        8u8 as char
    } else if c == 0x74 {
        9u8 as char
    } else if c == 0x6e {
        10u8 as char
    } else if c == 0x76 {
        11u8 as char
    } else if c == 0x66 {
        12u8 as char
    } else if c == 0x72 {
        13u8 as char
    } else if c == 0x30 {
        0u8 as char
    } else {
        c as char
    }
}

/// The characters that the contents of a string literal stand for.
fn decode_escaped_string(bytes: &[u8], from: usize, to: usize) -> (r: String)
    requires
        from <= to <= bytes@.len(),
    ensures
        r@ == decoded(bytes@, from as int, to as int),
{
    let mut res = String::new();
    let mut i = from;
    assert(res@ + decoded(bytes@, from as int, to as int) =~= decoded(
        bytes@,
        from as int,
        to as int,
    ));
    while i < to
        invariant
            from <= i <= to <= bytes@.len(),
            decoded(bytes@, from as int, to as int) == res@ + decoded(bytes@, i as int, to as int),
        decreases to - i,
    {
        let ghost before = res@;
        if bytes[i] == 0x5c && i + 1 < to {
            string_push(&mut res, unescape(bytes[i + 1]));
            assert(res@ + decoded(bytes@, i + 2, to as int) =~= before + (seq![
                escaped(bytes@[i + 1]),
            ] + decoded(bytes@, i + 2, to as int)));
            i += 2;
        } else {
            string_push(&mut res, bytes[i] as char);
            assert(res@ + decoded(bytes@, i + 1, to as int) =~= before + (seq![
                bytes@[i as int] as char,
            ] + decoded(bytes@, i + 1, to as int)));
            i += 1;
        }
    }
    assert(res@ + Seq::<char>::empty() =~= res@);
    res
}

/// The bytes from `from` up to `to`, as a string.
fn make_text(bytes: &[u8], from: usize, to: usize) -> (r: String)
    requires
        from <= to <= bytes@.len(),
    ensures
        r@ == text(bytes@, from as int, to as int),
{
    let mut res = String::new();
    let mut i = from;
    assert(res@ =~= text(bytes@, from as int, from as int));
    while i < to
        invariant
            from <= i <= to <= bytes@.len(),
            res@ == text(bytes@, from as int, i as int),
        decreases to - i,
    {
        string_push(&mut res, bytes[i] as char);
        assert(res@ =~= text(bytes@, from as int, i + 1));
        i += 1;
    }
    res
}

/// The number that the digits from `from` up to `to` spell, where it fits.
fn read_number(bytes: &[u8], from: usize, to: usize) -> (r: Option<u64>)
    requires
        from <= to <= bytes@.len(),
        forall|i: int| from <= i < to ==> is_digit(#[trigger] bytes@[i]),
    ensures
        r == if number(bytes@, from as int, to as int) <= u64::MAX {
            Some(number(bytes@, from as int, to as int) as u64)
        } else {
            None
        },
{
    let mut acc: u64 = 0;
    let mut i = from;
    while i < to
        invariant
            from <= i <= to <= bytes@.len(),
            forall|j: int| from <= j < to ==> is_digit(#[trigger] bytes@[j]),
            acc == number(bytes@, from as int, i as int),
        decreases to - i,
    {
        let d: u64 = (bytes[i] - 0x30) as u64;
        proof {
            assert(is_digit(bytes@[i as int]));
            lemma_number_grows(bytes@, from as int, i + 1, to as int);
        }
        if acc > (u64::MAX - d) / 10 {
            return None;
        }
        acc = acc * 10 + d;
        i += 1;
    }
    Some(acc)
}

/// Whether the word is a keyword.
fn keyword(w: &str) -> (r: bool)
    ensures
        r == is_keyword(w@),
{
    str_eq(w, "return") || str_eq(w, "if") || str_eq(w, "else") || str_eq(w, "for") || str_eq(
        w,
        "while",
    ) || str_eq(w, "break") || str_eq(w, "continue") || str_eq(w, "int") || str_eq(w, "char")
        || str_eq(w, "struct")
}

/// Whether the two characters are an operator.
fn two_char_op(w: &str) -> (r: bool)
    ensures
        r == is_two_char_op(w@),
{
    str_eq(w, "==") || str_eq(w, "!=") || str_eq(w, "<=") || str_eq(w, ">=") || str_eq(w, "+=")
        || str_eq(w, "-=") || str_eq(w, "*=") || str_eq(w, "/=") || str_eq(w, "++") || str_eq(
        w,
        "--",
    )
}

/// The first token of `bytes` from `pos` on: the token or the error met in
/// its place, where it starts, and where the text goes on after it.
fn tokenize(bytes: &[u8], pos: usize) -> (r: (Expected<Token>, usize, usize))
    requires
        pos <= bytes@.len(),
    ensures
        shows(r.0, r.1, r.2, lex(bytes@, pos as int)),
        pos <= r.1 <= r.2 <= bytes@.len(),
        r.0 is Err ==> is_lex_error(r.0->Err_0),
        r.0 is Ok && r.0.unwrap()@ != TokenView::Eof ==> r.1 < r.2,
{
    let len = bytes.len();
    let start = match skip(bytes, pos) {
        Ok(p) => p,
        Err(k) => {
            return (Err(k), len, len);
        },
    };
    proof {
        lemma_token_at(bytes@, start as int);
    }
    if start >= len {
        return (Ok(Token::Eof), start, len);
    }
    let b = bytes[start];
    if belongs(Class::Word, b) && !belongs(Class::Digit, b) {
        let end = scan_run(bytes, start, Class::Word);
        let word = make_text(bytes, start, end);
        if keyword(word.as_str()) {
            (Ok(Token::Keyword(word)), start, end)
        } else {
            (Ok(Token::Ident(word)), start, end)
        }
    } else if belongs(Class::Digit, b) {
        let end = scan_run(bytes, start, Class::Digit);
        match read_number(bytes, start, end) {
            Some(n) => (Ok(Token::Num(n)), start, end),
            None => (Err(ErrorKind::BadInteger), start, end),
        }
    } else if b == 0x22 {
        match string_literal_end(bytes, start + 1) {
            Some(end) => {
                if ascii_range(bytes, start + 1, end) {
                    (Ok(Token::Str(decode_escaped_string(bytes, start + 1, end))), start, end + 1)
                } else {
                    (Err(ErrorKind::UnexpectedCharacter), start, end + 1)
                }
            },
            None => (Err(ErrorKind::UnterminatedString), start, len),
        }
    } else if (0x21 <= b && b <= 0x2f) || (0x3a <= b && b <= 0x40) || (0x5b <= b && b <= 0x60) || (
    0x7b <= b && b <= 0x7e) {
        if start + 1 < len {
            let pair = make_text(bytes, start, start + 2);
            if two_char_op(pair.as_str()) {
                return (Ok(Token::Punct(pair)), start, start + 2);
            }
        }
        (Ok(Token::Punct(make_text(bytes, start, start + 1))), start, start + 1)
    } else {
        (Err(ErrorKind::UnexpectedCharacter), start, start + 1)
    }
}

/// Whether a token or error, with the positions where it starts and where
/// the text goes on, is what `lexed` says. Of an error, the start is left
/// open.
pub open spec fn shows(item: Expected<Token>, start: usize, next: usize, lexed: Lexed) -> bool {
    &&& next == lexed.next
    &&& match item {
        Ok(t) => lexed.item == Ok::<TokenView, ErrorKind>(t@) && start == lexed.start,
        Err(k) => lexed.item == Err::<TokenView, ErrorKind>(k),
    }
}

/// A token, or the error met in its place.
pub type Lexeme = Result<TokenView, ErrorKind>;

/// Whether the lexeme is a token other than the end of the text.
pub open spec fn is_real(l: Lexeme) -> bool {
    l is Ok && l.unwrap() != TokenView::Eof
}

/// The tokens of `s` from `pos` on, up to and including the end of the
/// text or the first error.
pub open spec fn tokens_from(s: Seq<u8>, pos: int) -> Seq<Lexeme>
    decreases s.len() - pos,
{
    let l = lex(s, pos);
    if is_real(l.item) && pos < l.next <= s.len() {
        seq![l.item] + tokens_from(s, l.next)
    } else {
        seq![l.item]
    }
}

/// The tokens of `s`, up to and including the end of the text or the first
/// error.
pub open spec fn tokens_of(s: Seq<u8>) -> Seq<Lexeme> {
    tokens_from(s, 0)
}

/// What a token or error is, to a contract.
pub open spec fn lexeme(item: Expected<Token>) -> Lexeme {
    match item {
        Ok(t) => Ok(t@),
        Err(k) => Err(k),
    }
}

/// What a list of tokens and errors is, to a contract.
pub open spec fn lexemes(items: Seq<Expected<Token>>) -> Seq<Lexeme> {
    items.map_values(|item: Expected<Token>| lexeme(item))
}

/// A list of lexemes is one of tokens that ends in the end of the text or
/// in an error of reading tokens.
pub open spec fn closed_list(t: Seq<Lexeme>) -> bool {
    &&& t.len() > 0
    &&& forall|i: int| 0 <= i < t.len() - 1 ==> is_real(#[trigger] t[i])
    &&& !is_real(t.last())
    &&& t.last() is Err ==> is_lex_error(t.last()->Err_0)
}

/// The position after `i` in a list of `len` lexemes: the next one, or `i`
/// itself at the last lexeme.
pub open spec fn after(len: nat, i: int) -> int {
    if i + 1 < len {
        i + 1
    } else {
        i
    }
}

/// A cursor over the tokens of a text.
pub struct Tokenizer {
    tokens: Vec<Expected<Token>>,
    pos: usize,
}

/// A position of a `Tokenizer`, to come back to.
#[derive(Clone, Copy, Debug)]
pub struct Mark {
    pos: usize,
}

impl Tokenizer {
    /// The tokens of the text, up to and including its end or the first
    /// error.
    pub closed spec fn items(&self) -> Seq<Lexeme> {
        lexemes(self.tokens@)
    }

    /// The position of the cursor among the tokens.
    pub closed spec fn pos(&self) -> int {
        self.pos as int
    }

    /// The token under the cursor, or the error met in its place.
    pub open spec fn item(&self) -> Lexeme {
        self.items()[self.pos()]
    }

    /// The tokens end in the end of the text or in an error, and the cursor
    /// stands at one of them.
    pub open spec fn wf(&self) -> bool {
        closed_list(self.items()) && 0 <= self.pos() < self.items().len()
    }

    /// How many tokens are left from the cursor on. Every token taken makes
    /// it less.
    pub open spec fn remaining(&self) -> nat {
        (self.items().len() - self.pos()) as nat
    }

    /// A cursor at the first token of `input`.
    pub fn new(input: &str) -> (t: Tokenizer)
        ensures
            t.wf(),
            t.items() == tokens_of(input.spec_bytes()),
            t.pos() == 0,
    {
        let bytes = input.as_bytes_vec();
        let ghost s = bytes@;
        let mut tokens: Vec<Expected<Token>> = Vec::new();
        let mut pos: usize = 0;
        assert(lexemes(tokens@) + tokens_from(s, 0) =~= tokens_from(s, 0));
        loop
            invariant
                bytes@ == s,
                s == input.spec_bytes(),
                pos <= s.len(),
                tokens_of(s) == lexemes(tokens@) + tokens_from(s, pos as int),
                forall|i: int| 0 <= i < tokens@.len() ==> is_real(#[trigger] lexemes(tokens@)[i]),
            decreases s.len() - pos,
        {
            let (item, _start, next) = tokenize(bytes.as_slice(), pos);
            let ghost before = lexemes(tokens@);
            let goes_on = match &item {
                Ok(Token::Eof) => false,
                Ok(_) => true,
                Err(_) => false,
            };
            let ghost l = lexeme(item);
            tokens.push(item);
            proof {
                assert(lexemes(tokens@) =~= before.push(l));
                assert(l == lex(s, pos as int).item);
                assert(next == lex(s, pos as int).next);
                assert(tokens_from(s, pos as int) == if is_real(l) && pos < next <= s.len() {
                    seq![l] + tokens_from(s, next as int)
                } else {
                    seq![l]
                });
            }
            if goes_on {
                proof {
                    assert(before.push(l) + tokens_from(s, next as int) =~= before + (seq![l]
                        + tokens_from(s, next as int)));
                }
                pos = next;
            } else {
                proof {
                    assert(before.push(l) =~= before + seq![l]);
                    assert(lexemes(tokens@) == tokens_of(s));
                }
                return Tokenizer { tokens, pos: 0 };
            }
        }
    }

    /// Steps to the next token. A cursor at the last token stays where it
    /// is: at the end of the text, or at the error.
    pub fn advance(&mut self)
        requires
            old(self).wf(),
        ensures
            final(self).wf(),
            final(self).items() == old(self).items(),
            final(self).pos() == after(old(self).items().len(), old(self).pos()),
    {
        assert(self.items().len() == self.tokens@.len());
        if self.pos < self.tokens.len() - 1 {
            self.pos += 1;
        }
    }

    /// The token under the cursor, or the error met in its place.
    pub fn current(&mut self) -> (r: Expected<Token>)
        requires
            old(self).wf(),
        ensures
            *final(self) == *old(self),
            lexeme(r) == old(self).item(),
    {
        assert(self.items().len() == self.tokens@.len());
        match &self.tokens[self.pos] {
            Ok(t) => Ok(t.duplicate()),
            Err(k) => Err(*k),
        }
    }

    /// The position of the cursor, to come back to.
    pub fn mark(&self) -> (m: Mark)
        ensures
            m.at() == self.pos(),
    {
        Mark { pos: self.pos }
    }

    /// Comes back to a position that the cursor had.
    pub fn reset(&mut self, m: Mark)
        requires
            old(self).wf(),
            0 <= m.at() < old(self).items().len(),
        ensures
            final(self).wf(),
            final(self).items() == old(self).items(),
            final(self).pos() == m.at(),
    {
        self.pos = m.pos;
    }
}

impl Clone for Tokenizer {
    /// A cursor over the same tokens at the same position, which moves on
    /// its own.
    fn clone(&self) -> (r: Tokenizer)
        ensures
            r.items() == self.items(),
            r.pos() == self.pos(),
    {
        let mut tokens: Vec<Expected<Token>> = Vec::new();
        let mut i: usize = 0;
        while i < self.tokens.len()
            invariant
                i <= self.tokens@.len(),
                tokens@.len() == i,
                forall|j: int| 0 <= j < i ==> lexeme(#[trigger] tokens@[j]) == lexeme(self.tokens@[j]),
            decreases self.tokens@.len() - i,
        {
            let item = match &self.tokens[i] {
                Ok(t) => Ok(t.duplicate()),
                Err(k) => Err(*k),
            };
            tokens.push(item);
            i += 1;
        }
        assert(lexemes(tokens@) =~= lexemes(self.tokens@));
        Tokenizer { tokens, pos: self.pos }
    }
}

impl Mark {
    /// The position that the mark stands for.
    pub closed spec fn at(&self) -> int {
        self.pos as int
    }
}

} // verus!
