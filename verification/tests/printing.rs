use lox_front::ast::{Expr, LiteralValue};
use lox_front::token::{Literal, Token, TokenType};
use lox_front::{error, report};

#[test]
fn pretty_print_est() {
    let minus_token = Token::new(TokenType::MINUS, String::from("-"), Literal::NONE, -1);
    let onetwothree = Box::from(Expr::Literal { value: LiteralValue::NUMBER(String::from("123")) });
    let group = Expr::Grouping {
        expression: Box::from(Expr::Literal { value: LiteralValue::NUMBER(String::from("45.67")) }),
    };
    let multi = Token::new(TokenType::STAR, String::from("*"), Literal::NONE, -1);
    let ast = Expr::Binary {
        left: Box::from(Expr::Unary { operator: minus_token, right: onetwothree }),
        operator: multi,
        right: Box::from(group),
    };
    println!("{:?}", ast.to_string());
    assert_eq!(ast.to_string(), "(* (- 123) (group 45.67))");
}

#[test]
fn printing_is_a_function_of_the_tree_shape() {
    // each of the four node kinds, built twice independently, prints the
    // same text both times
    let literal_a = Expr::Literal { value: LiteralValue::NUMBER(String::from("8")) };
    let literal_b = Expr::Literal { value: LiteralValue::NUMBER(format!("{}", 8)) };
    assert_eq!(literal_a.to_string(), literal_b.to_string());

    let group_a = Expr::Grouping {
        expression: Box::new(Expr::Literal { value: LiteralValue::True }),
    };
    let group_b = Expr::Grouping {
        expression: Box::new(Expr::Literal { value: LiteralValue::True }),
    };
    assert_eq!(group_a.to_string(), group_b.to_string());

    let unary_a = Expr::Unary {
        operator: Token::new(TokenType::BANG, String::from("!"), Literal::NONE, 1),
        right: Box::new(Expr::Literal { value: LiteralValue::False }),
    };
    let unary_b = Expr::Unary {
        operator: Token::new(TokenType::BANG, "!".to_string(), Literal::NONE, 1),
        right: Box::new(Expr::Literal { value: LiteralValue::False }),
    };
    assert_eq!(unary_a.to_string(), unary_b.to_string());

    let binary_a = Expr::Binary {
        left: Box::new(Expr::Literal { value: LiteralValue::NUMBER(String::from("1")) }),
        operator: Token::new(TokenType::PLUS, String::from("+"), Literal::NONE, 1),
        right: Box::new(Expr::Literal { value: LiteralValue::Nil }),
    };
    let binary_b = Expr::Binary {
        left: Box::new(Expr::Literal { value: LiteralValue::NUMBER(String::from("1")) }),
        operator: Token::new(TokenType::PLUS, String::from("+"), Literal::NONE, 1),
        right: Box::new(Expr::Literal { value: LiteralValue::Nil }),
    };
    assert_eq!(binary_a.to_string(), binary_b.to_string());
    assert_eq!(binary_a.to_string(), "(+ 1 nil)");
}

#[test]
fn token_rendering_names_kind_lexeme_and_payload() {
    let num = Token::new(TokenType::NUM, String::from("1"), Literal::NUMBER(String::from("1")), 1);
    assert_eq!(num.toString(), "NUM 1 1");
    let plus = Token::new(TokenType::PLUS, String::from("+"), Literal::NONE, 1);
    assert_eq!(plus.toString(), "PLUS + NONE");
    let s = Token::new(
        TokenType::STR,
        String::from("\"hi\""),
        Literal::STRING(String::from("hi")),
        1,
    );
    assert_eq!(s.toString(), "STR \"hi\" hi");
}

#[test]
fn literal_payload_unwrappers() {
    let text = Literal::STRING(String::from("abc"));
    assert_eq!(Literal::unwrap_as_String(text), Some(String::from("abc")));
    assert_eq!(Literal::unwrap_as_String(Literal::NONE), None);
    assert_eq!(
        Literal::unwrap_as_String(Literal::NUMBER(String::from("1"))),
        None
    );
    let num = Literal::NUMBER(String::from("2.5"));
    assert_eq!(Literal::unwrap_as_number(num), Some(String::from("2.5")));
    assert_eq!(Literal::unwrap_as_number(Literal::NONE), None);
    assert_eq!(
        Literal::unwrap_as_number(Literal::STRING(String::from("x"))),
        None
    );
}

#[test]
fn reports_carry_line_context_and_message() {
    let r = report(3, String::from("scan"), String::from("bad input"));
    assert_eq!(r.line, 3);
    assert_eq!(r.context, "scan");
    assert_eq!(r.message, "bad input");
    let e = error(7, String::from("oops"));
    assert_eq!(e.line, 7);
    assert_eq!(e.context, "");
    assert_eq!(e.message, "oops");
}
