use roth::lexer::{Lexer, parse_int};
use roth::token::{Token, TokenKind};

fn lex(buff: &str) -> Vec<Token> {
    Lexer::new(buff).lex().unwrap()
}

fn check_token(t: &Token, offset: usize, len: usize, text: &str, kind: TokenKind) {
    assert_eq!(t.span.offset, offset);
    assert_eq!(t.span.len, len);
    assert_eq!(t.text, text);
    assert_eq!(t.kind, kind);
}

#[test]
fn test_simple_lex() {
    let actual = lex("1 2 +");
    assert_eq!(actual.len(), 3);
    check_token(&actual[0], 0, 1, "1", TokenKind::Number);
    check_token(&actual[1], 2, 1, "2", TokenKind::Number);
    check_token(&actual[2], 4, 1, "+", TokenKind::Add);
}

#[test]
fn test_simple_comment() {
    let actual = lex("//simple_comment");
    assert_eq!(actual.len(), 0);
}

#[test]
fn test_simple_comment_with_spaces() {
    let actual = lex("// this is a comment with spaces");
    assert_eq!(actual.len(), 0);
}

#[test]
fn test_comments_before_expr() {
    let actual = lex(
        "// this a comment before some expressions
1 2 +",
    );
    assert_eq!(actual.len(), 3);
    check_token(&actual[0], 42, 1, "1", TokenKind::Number);
    check_token(&actual[1], 44, 1, "2", TokenKind::Number);
    check_token(&actual[2], 46, 1, "+", TokenKind::Add);
}

#[test]
fn test_weird_comments() {
    let actual = lex(
        "1 2 +
// some weird comment here
// afjh fj ak// kfja / / fjkod j/ f
1
// some thing
2
// some other thing
+
",
    );
    assert_eq!(actual.len(), 6);
    check_token(&actual[0], 0, 1, "1", TokenKind::Number);
    check_token(&actual[1], 2, 1, "2", TokenKind::Number);
    check_token(&actual[2], 4, 1, "+", TokenKind::Add);
    check_token(&actual[3], 69, 1, "1", TokenKind::Number);
    check_token(&actual[4], 85, 1, "2", TokenKind::Number);
    check_token(&actual[5], 107, 1, "+", TokenKind::Add);
}

#[test]
fn test_string_token_span_includes_quotes() {
    let actual = lex("\"hi there\" 5");
    assert_eq!(actual.len(), 2);
    check_token(&actual[0], 0, 10, "hi there", TokenKind::String);
    check_token(&actual[1], 11, 1, "5", TokenKind::Number);
}

#[test]
fn test_string_keeps_inner_whitespace_and_slashes() {
    let actual = lex("\"a // b\"");
    assert_eq!(actual.len(), 1);
    check_token(&actual[0], 0, 8, "a // b", TokenKind::String);
}

#[test]
fn test_unterminated_string_fails() {
    let r = Lexer::new("\"abc").lex();
    assert!(matches!(r, Err(roth::error::ParseError::UnterminatedStringLiteral)));
}

#[test]
fn test_lone_quote_is_unterminated() {
    let r = Lexer::new("\" ").lex();
    assert!(matches!(r, Err(roth::error::ParseError::UnterminatedStringLiteral)));
}

#[test]
fn test_keywords_and_idents() {
    let actual = lex("type::int box pack unpack assert foo true false -12 +3");
    let kinds: Vec<TokenKind> = actual.iter().map(|t| t.kind).collect();
    assert_eq!(
        kinds,
        vec![
            TokenKind::TypeInt,
            TokenKind::Box,
            TokenKind::Pack,
            TokenKind::Unpack,
            TokenKind::Assert,
            TokenKind::Ident,
            TokenKind::Boolean,
            TokenKind::Boolean,
            TokenKind::Number,
            TokenKind::Number,
        ]
    );
}

#[test]
fn test_out_of_range_number_is_ident() {
    // one past the largest representable value
    let actual = lex("170141183460469231731687303715884105728");
    assert_eq!(actual.len(), 1);
    assert_eq!(actual[0].kind, TokenKind::Ident);
}

#[test]
fn test_parse_int_bounds() {
    assert_eq!(parse_int("123"), Some(123));
    assert_eq!(parse_int("+123"), Some(123));
    assert_eq!(parse_int("-123"), Some(-123));
    assert_eq!(parse_int("-0"), Some(0));
    assert_eq!(parse_int("007"), Some(7));
    assert_eq!(parse_int("170141183460469231731687303715884105727"), Some(i128::MAX));
    assert_eq!(parse_int("-170141183460469231731687303715884105728"), Some(i128::MIN));
    assert_eq!(parse_int("170141183460469231731687303715884105728"), None);
    assert_eq!(parse_int("-170141183460469231731687303715884105729"), None);
    assert_eq!(parse_int(""), None);
    assert_eq!(parse_int("+"), None);
    assert_eq!(parse_int("-"), None);
    assert_eq!(parse_int("12a"), None);
    assert_eq!(parse_int("1 2"), None);
}
