use typee::ast::Expr;
use typee::lex::{lex, LexError, Token};
use typee::parse::{parse_tokens, ParseError};

#[test]
fn test_tokens() {
    let got = lex("(foo (+ 3))").unwrap();
    let expected = vec![
        Token::LParen,
        Token::Symbol("foo".to_string()),
        Token::LParen,
        Token::Symbol("+".to_string()),
        Token::IntLiteral(3),
        Token::RParen,
        Token::RParen,
    ];
    assert_eq!(got.len(), expected.len());
    for (got, exp) in got.iter().zip(&expected) {
        assert_eq!(got, exp);
    }
}

#[test]
fn test_ast() {
    let input = "(def hi (x y) (foo 2 x))";
    let tokens = lex(input).expect("lex error");
    let ast = parse_tokens(&tokens).expect("parse error");

    let expect = vec![Expr::List(vec![
        Expr::Symbol("def".to_string()),
        Expr::Symbol("hi".to_string()),
        Expr::List(vec![Expr::Symbol("x".to_string()), Expr::Symbol("y".to_string())]),
        Expr::List(vec![Expr::Symbol("foo".to_string()), Expr::IntLiteral(2), Expr::Symbol("x".to_string())]),
    ])];

    assert_eq!(ast, expect);
}

#[test]
fn lex_signed_numbers_and_bounds() {
    assert_eq!(lex("-5 +7 2147483647 -2147483648").unwrap(), vec![
        Token::IntLiteral(-5),
        Token::IntLiteral(7),
        Token::IntLiteral(i32::MAX),
        Token::IntLiteral(i32::MIN),
    ]);
}

#[test]
fn lex_overflowing_number_is_a_symbol() {
    assert_eq!(lex("2147483648").unwrap(), vec![Token::Symbol("2147483648".to_string())]);
    assert_eq!(lex("-").unwrap(), vec![Token::Symbol("-".to_string())]);
}

#[test]
fn lex_number_then_symbol() {
    assert_eq!(lex("12abc").unwrap(), vec![Token::IntLiteral(12), Token::Symbol("abc".to_string())]);
}

#[test]
fn lex_skips_whitespace_and_comments() {
    let got = lex("  ; a comment (\n\t(x) ; tail").unwrap();
    assert_eq!(got, vec![Token::LParen, Token::Symbol("x".to_string()), Token::RParen]);
    assert_eq!(lex("").unwrap(), vec![]);
    assert_eq!(lex(" \r\n ").unwrap(), vec![]);
}

#[test]
fn lex_rejects_quote() {
    assert_eq!(lex("(a \"b\")"), Err(LexError { pos: 3 }));
}

#[test]
fn parse_unbalanced() {
    let close = lex("(a))").unwrap();
    assert_eq!(parse_tokens(&close), Err(ParseError::UnmatchedClose(3)));
    let open = lex("((a)").unwrap();
    assert_eq!(parse_tokens(&open), Err(ParseError::Unclosed));
}

#[test]
fn parse_several_forms() {
    let tokens = lex("1 (f) x").unwrap();
    let ast = parse_tokens(&tokens).unwrap();
    assert_eq!(ast, vec![
        Expr::IntLiteral(1),
        Expr::List(vec![Expr::Symbol("f".to_string())]),
        Expr::Symbol("x".to_string()),
    ]);
}
