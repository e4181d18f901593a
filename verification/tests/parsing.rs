use lox_front::ast::LiteralValue;
use lox_front::diag::ParseError;
use lox_front::parser::Parser;
use lox_front::scanner::Scanner;
use lox_front::token::{Literal, Token, TokenType};

fn parse_print(src: &str) -> String {
    let mut scanner = Scanner::new(src.to_string());
    let tokens = scanner.scanTokens().clone();
    let mut parser = Parser::new(tokens);
    parser.expression().unwrap().to_string()
}

fn parse_err(src: &str) -> ParseError {
    let mut scanner = Scanner::new(src.to_string());
    let tokens = scanner.scanTokens().clone();
    let mut parser = Parser::new(tokens);
    parser.expression().unwrap_err()
}

#[test]
fn test_addition() {
    let tokens = vec![
        Token {
            _type: TokenType::NUM,
            lexeme: String::from("1"),
            literal: Literal::NUMBER(String::from("1")),
            line: 0,
        },
        Token {
            _type: TokenType::PLUS,
            lexeme: String::from("+"),
            literal: Literal::NONE,
            line: 0,
        },
        Token {
            _type: TokenType::NUM,
            lexeme: String::from("2"),
            literal: Literal::NUMBER(String::from("2")),
            line: 0,
        },
        Token {
            _type: TokenType::SEMICOLON,
            lexeme: String::from(";"),
            literal: Literal::NONE,
            line: 0,
        },
        Token {
            _type: TokenType::EOF,
            lexeme: String::new(),
            literal: Literal::NONE,
            line: 0,
        },
    ];
    let mut parser = Parser::new(tokens);
    let parser_expr = parser.expression().unwrap();
    let string_expr = parser_expr.to_string();
    println!("{:?}", string_expr);
    assert_eq!(string_expr, "(+ 1 2)");
}

#[test]
fn subtraction_is_left_associative() {
    assert_eq!(parse_print("1 - 2 - 3"), "(- (- 1 2) 3)");
}

#[test]
fn star_binds_tighter_than_plus() {
    assert_eq!(parse_print("1 + 2 * 3"), "(+ 1 (* 2 3))");
}

#[test]
fn grouping_overrides_precedence() {
    assert_eq!(parse_print("(1 + 2) * 3"), "(* (group (+ 1 2)) 3)");
}

#[test]
fn unary_chains_to_the_right() {
    assert_eq!(parse_print("--5"), "(- (- 5))");
    assert_eq!(parse_print("!!true"), "(! (! true))");
}

#[test]
fn comparison_and_equality_levels() {
    assert_eq!(parse_print("1 < 2 == 3 >= 4"), "(== (< 1 2) (>= 3 4))");
    assert_eq!(parse_print("1 != 2"), "(!= 1 2)");
}

#[test]
fn factor_is_left_associative() {
    assert_eq!(parse_print("8 / 4 / 2"), "(/ (/ 8 4) 2)");
}

#[test]
fn literal_primaries() {
    assert_eq!(parse_print("true"), "true");
    assert_eq!(parse_print("false"), "false");
    assert_eq!(parse_print("nil"), "nil");
    assert_eq!(parse_print("\"hi\""), "hi");
    assert_eq!(parse_print("4.50"), "4.5");
}

#[test]
fn missing_close_paren_is_expected_token() {
    assert_eq!(
        parse_err("(1 + 2"),
        ParseError::ExpectedToken {
            line: 1,
            expected: TokenType::RIGHT_PAREN,
            found: TokenType::EOF,
        }
    );
}

#[test]
fn token_that_cannot_start_an_expression_is_invalid_primary() {
    assert_eq!(parse_err("+"), ParseError::InvalidPrimary { line: 1, found: TokenType::PLUS });
    assert_eq!(parse_err(""), ParseError::InvalidPrimary { line: 1, found: TokenType::EOF });
    assert_eq!(parse_err(")"), ParseError::InvalidPrimary { line: 1, found: TokenType::RIGHT_PAREN });
}

#[test]
fn from_token_converts_literal_tokens_only() {
    let num = Token::new(
        TokenType::NUM,
        String::from("7"),
        Literal::NUMBER(String::from("7")),
        1,
    );
    assert!(matches!(LiteralValue::from_token(num), Ok(LiteralValue::NUMBER(s)) if s == "7"));
    let tru = Token::new(TokenType::TRUE, String::from("true"), Literal::NONE, 1);
    assert!(matches!(LiteralValue::from_token(tru), Ok(LiteralValue::True)));
    let plus = Token::new(TokenType::PLUS, String::from("+"), Literal::NONE, 3);
    assert_eq!(
        LiteralValue::from_token(plus),
        Err(ParseError::InvalidPrimary { line: 3, found: TokenType::PLUS })
    );
    let bad_num = Token::new(TokenType::NUM, String::from("7"), Literal::NONE, 2);
    assert_eq!(
        LiteralValue::from_token(bad_num),
        Err(ParseError::InvalidPrimary { line: 2, found: TokenType::NUM })
    );
}
