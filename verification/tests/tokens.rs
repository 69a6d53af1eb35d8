use minic::common::ErrorKind;
use minic::tokenize::{Token, Tokenizer};

fn all_tokens(input: &str) -> Vec<Result<Token, ErrorKind>> {
    let mut it = Tokenizer::new(input);
    let mut out = Vec::new();
    loop {
        let item = it.current();
        let stop = matches!(item, Ok(Token::Eof) | Err(_));
        out.push(item);
        if stop {
            return out;
        }
        it.advance();
    }
}

fn kinds(input: &str) -> Vec<String> {
    all_tokens(input)
        .into_iter()
        .map(|t| match t {
            Ok(Token::Eof) => "eof".to_string(),
            Ok(Token::Keyword(w)) => format!("kw:{}", w),
            Ok(Token::Ident(w)) => format!("id:{}", w),
            Ok(Token::Num(n)) => format!("num:{}", n),
            Ok(Token::Str(s)) => format!("str:{}", s),
            Ok(Token::Punct(p)) => format!("p:{}", p),
            Err(k) => format!("err:{}", k.message()),
        })
        .collect()
}

#[test]
fn empty_text_is_end_of_text() {
    assert_eq!(kinds(""), vec!["eof"]);
    assert_eq!(kinds("  \n\t \r\n"), vec!["eof"]);
}

#[test]
fn keywords_identifiers_numbers_and_punctuators() {
    assert_eq!(
        kinds("int main(){return x1+42;}"),
        vec![
            "kw:int", "id:main", "p:(", "p:)", "p:{", "kw:return", "id:x1", "p:+", "num:42", "p:;",
            "p:}", "eof"
        ]
    );
}

#[test]
fn every_keyword_is_a_keyword() {
    assert_eq!(
        kinds("return if else for while break continue int char struct"),
        vec![
            "kw:return",
            "kw:if",
            "kw:else",
            "kw:for",
            "kw:while",
            "kw:break",
            "kw:continue",
            "kw:int",
            "kw:char",
            "kw:struct",
            "eof"
        ]
    );
    assert_eq!(kinds("returns _if intx"), vec!["id:returns", "id:_if", "id:intx", "eof"]);
}

#[test]
fn two_character_operators_are_one_token() {
    assert_eq!(
        kinds("== != <= >= += -= *= /= ++ --"),
        vec!["p:==", "p:!=", "p:<=", "p:>=", "p:+=", "p:-=", "p:*=", "p:/=", "p:++", "p:--", "eof"]
    );
    assert_eq!(kinds("=<"), vec!["p:=", "p:<", "eof"]);
    assert_eq!(kinds("+"), vec!["p:+", "eof"]);
    assert_eq!(kinds("a+++b"), vec!["id:a", "p:++", "p:+", "id:b", "eof"]);
}

#[test]
fn comments_are_skipped() {
    assert_eq!(kinds("a // b c\n d"), vec!["id:a", "id:d", "eof"]);
    assert_eq!(kinds("a /* b \n c */ d"), vec!["id:a", "id:d", "eof"]);
    assert_eq!(kinds("a // no newline"), vec!["id:a", "eof"]);
    assert_eq!(kinds("a /**/ b"), vec!["id:a", "id:b", "eof"]);
    assert_eq!(kinds("a / b"), vec!["id:a", "p:/", "id:b", "eof"]);
}

#[test]
fn unterminated_block_comment_is_an_error() {
    assert_eq!(kinds("a /* b"), vec!["id:a", "err:unterminated block comment"]);
    assert_eq!(kinds("/*/"), vec!["err:unterminated block comment"]);
}

#[test]
fn string_literals_decode_their_escapes() {
    assert_eq!(kinds("\"abc\""), vec!["str:abc", "eof"]);
    assert_eq!(kinds("\"\""), vec!["str:", "eof"]);
    assert_eq!(
        kinds(r#""\a\b\t\n\v\f\r\\\"\0""#),
        vec!["str:\x07\x08\x09\x0a\x0b\x0c\x0d\\\"\0", "eof"]
    );
    assert_eq!(kinds(r#""a\qb""#), vec!["str:aqb", "eof"]);
    assert_eq!(kinds("\"a\" \"b\""), vec!["str:a", "str:b", "eof"]);
}

#[test]
fn unterminated_string_is_an_error() {
    assert_eq!(kinds("\"abc"), vec!["err:missing terminating `\"` character"]);
    assert_eq!(kinds("\"ab\nc\""), vec!["err:missing terminating `\"` character"]);
    assert_eq!(kinds("\"ab\\"), vec!["err:missing terminating `\"` character"]);
}

#[test]
fn numbers_up_to_the_largest_fit() {
    assert_eq!(kinds("0"), vec!["num:0", "eof"]);
    assert_eq!(kinds("007"), vec!["num:7", "eof"]);
    assert_eq!(kinds("18446744073709551615"), vec!["num:18446744073709551615", "eof"]);
    assert_eq!(kinds("18446744073709551616"), vec!["err:failed to read integer"]);
    assert_eq!(kinds("99999999999999999999999"), vec!["err:failed to read integer"]);
    assert_eq!(kinds("12ab"), vec!["num:12", "id:ab", "eof"]);
}

#[test]
fn unexpected_characters_are_errors() {
    assert_eq!(kinds("a \x01"), vec!["id:a", "err:unexpected character"]);
    assert_eq!(kinds("é"), vec!["err:unexpected character"]);
    assert_eq!(kinds("\"é\""), vec!["err:unexpected character"]);
}

#[test]
fn advance_stays_on_an_error_and_at_the_end() {
    let mut it = Tokenizer::new("a \x01 b");
    assert!(matches!(it.current(), Ok(Token::Ident(_))));
    it.advance();
    assert_eq!(it.current().unwrap_err(), ErrorKind::UnexpectedCharacter);
    it.advance();
    assert_eq!(it.current().unwrap_err(), ErrorKind::UnexpectedCharacter);
    it.advance();
    assert_eq!(it.current().unwrap_err(), ErrorKind::UnexpectedCharacter);

    let mut it = Tokenizer::new("a");
    it.advance();
    assert!(matches!(it.current(), Ok(Token::Eof)));
    it.advance();
    assert!(matches!(it.current(), Ok(Token::Eof)));
}

#[test]
fn current_does_not_move_the_cursor() {
    let mut it = Tokenizer::new("a b");
    assert!(matches!(it.current(), Ok(Token::Ident(w)) if w == "a"));
    assert!(matches!(it.current(), Ok(Token::Ident(w)) if w == "a"));
    it.advance();
    assert!(matches!(it.current(), Ok(Token::Ident(w)) if w == "b"));
}

#[test]
fn a_mark_brings_the_cursor_back() {
    let mut it = Tokenizer::new("a b c");
    it.advance();
    let mark = it.mark();
    it.advance();
    assert!(matches!(it.current(), Ok(Token::Ident(w)) if w == "c"));
    it.reset(mark);
    assert!(matches!(it.current(), Ok(Token::Ident(w)) if w == "b"));
    it.advance();
    assert!(matches!(it.current(), Ok(Token::Ident(w)) if w == "c"));
}

#[test]
fn a_copy_of_the_cursor_moves_on_its_own() {
    let mut it = Tokenizer::new("a b c");
    it.advance();
    let mut copy = it.clone();
    assert!(matches!(copy.current(), Ok(Token::Ident(w)) if w == "b"));
    copy.advance();
    assert!(matches!(copy.current(), Ok(Token::Ident(w)) if w == "c"));
    assert!(matches!(it.current(), Ok(Token::Ident(w)) if w == "b"));
    it.advance();
    it.advance();
    assert!(matches!(it.current(), Ok(Token::Eof)));
    assert!(matches!(copy.current(), Ok(Token::Ident(w)) if w == "c"));
}
