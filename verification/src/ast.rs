//! The expression model: the four AST node variants, the literal value they
//! carry at the leaves, and the canonical prefix-notation printer that makes
//! the tree's shape observable.
use vstd::prelude::*;

use crate::diag::{ParseError, ParseErrorView};
use crate::token::{LiteralView, Token, TokenType, TokenView};

verus! {

/// The value carried by a literal AST node. A number is held as its
/// canonical decimal text, exactly as in a token's literal payload; booleans
/// and nil carry no text of their own.
#[allow(non_camel_case_types)]
#[derive(Debug, PartialEq)]
pub enum LiteralValue {
    NUMBER(String),
    STRING(String),
    True,
    False,
    Nil,
}

/// The mathematical model of a `LiteralValue`.
pub ghost enum LiteralValueView {
    NUMBER(Seq<char>),
    STRING(Seq<char>),
    True,
    False,
    Nil,
}

impl View for LiteralValue {
    type V = LiteralValueView;

    open spec fn view(&self) -> LiteralValueView {
        match self {
            LiteralValue::NUMBER(s) => LiteralValueView::NUMBER(s@),
            LiteralValue::STRING(s) => LiteralValueView::STRING(s@),
            LiteralValue::True => LiteralValueView::True,
            LiteralValue::False => LiteralValueView::False,
            LiteralValue::Nil => LiteralValueView::Nil,
        }
    }
}

/// An expression node. The tree is strict: every child is exclusively owned
/// by its parent. The `operator` of a binary or unary node is the very token
/// the parser consumed for it.
#[derive(Debug)]
pub enum Expr {
    Binary { left: Box<Expr>, operator: Token, right: Box<Expr> },
    Grouping { expression: Box<Expr> },
    Literal { value: LiteralValue },
    Unary { operator: Token, right: Box<Expr> },
}

/// The mathematical model of an `Expr`.
pub ghost enum ExprView {
    Binary { left: Box<ExprView>, operator: TokenView, right: Box<ExprView> },
    Grouping { expression: Box<ExprView> },
    Literal { value: LiteralValueView },
    Unary { operator: TokenView, right: Box<ExprView> },
}

/// The model of an expression tree: the same shape with every token and
/// literal replaced by its model.
pub open spec fn expr_view(e: Expr) -> ExprView
    decreases e,
{
    match e {
        Expr::Binary { left, operator, right } => ExprView::Binary {
            left: Box::new(expr_view(*left)),
            operator: operator@,
            right: Box::new(expr_view(*right)),
        },
        Expr::Grouping { expression } => ExprView::Grouping { expression: Box::new(expr_view(*expression)) },
        Expr::Literal { value } => ExprView::Literal { value: value@ },
        Expr::Unary { operator, right } => ExprView::Unary {
            operator: operator@,
            right: Box::new(expr_view(*right)),
        },
    }
}

impl View for Expr {
    type V = ExprView;

    open spec fn view(&self) -> ExprView {
        expr_view(*self)
    }
}

/// The canonical text of a literal value: its decimal text for a number, the
/// carried text verbatim for a string, and the words `true`, `false`, `nil`
/// for the rest.
pub open spec fn spec_literal_value_text(v: LiteralValueView) -> Seq<char> {
    match v {
        LiteralValueView::NUMBER(s) => s,
        LiteralValueView::STRING(s) => s,
        LiteralValueView::True => "true"@,
        LiteralValueView::False => "false"@,
        LiteralValueView::Nil => "nil"@,
    }
}

/// The fully parenthesized prefix notation of an expression tree: binary and
/// unary nodes print their operator's lexeme followed by their children,
/// grouping prints `(group ...)`, and a literal prints its canonical text.
/// The text depends on the tree alone, so equal trees always print equally.
pub open spec fn spec_print(e: ExprView) -> Seq<char>
    decreases e,
{
    match e {
        ExprView::Binary { left, operator, right } => "("@ + operator.lexeme + " "@ + spec_print(*left)
            + " "@ + spec_print(*right) + ")"@,
        ExprView::Grouping { expression } => "(group "@ + spec_print(*expression) + ")"@,
        ExprView::Literal { value } => spec_literal_value_text(value),
        ExprView::Unary { operator, right } => "("@ + operator.lexeme + " "@ + spec_print(*right) + ")"@,
    }
}

/// The literal value a token converts to, if any: number and string tokens
/// hand over their payload, the three keyword literals convert by kind alone,
/// and every other kind — or a number or string token whose payload is
/// missing — is rejected as unable to begin a primary expression.
pub open spec fn spec_from_token(t: TokenView) -> Result<LiteralValueView, ParseErrorView> {
    match t._type {
        TokenType::NUM => match t.literal {
            LiteralView::NUMBER(s) => Ok(LiteralValueView::NUMBER(s)),
            _ => Err(ParseErrorView::InvalidPrimary { line: t.line, found: t._type }),
        },
        TokenType::STR => match t.literal {
            LiteralView::STRING(s) => Ok(LiteralValueView::STRING(s)),
            _ => Err(ParseErrorView::InvalidPrimary { line: t.line, found: t._type }),
        },
        TokenType::TRUE => Ok(LiteralValueView::True),
        TokenType::FALSE => Ok(LiteralValueView::False),
        TokenType::NIL => Ok(LiteralValueView::Nil),
        _ => Err(ParseErrorView::InvalidPrimary { line: t.line, found: t._type }),
    }
}

/// Printing reads the tree alone: two trees of the same shape — however
/// each was independently built — print to identical text. Together with
/// `Expr::to_string`'s contract this holds of the executable printer, for
/// every node kind.
pub proof fn lemma_print_same_shape(e1: ExprView, e2: ExprView)
    requires
        e1 == e2,
    ensures
        spec_print(e1) == spec_print(e2),
{
}

impl LiteralValue {
    /// The canonical text of this literal value.
    fn to_string(&self) -> (r: String)
        ensures
            r@ == spec_literal_value_text(self@),
    {
        match self {
            LiteralValue::NUMBER(s) => s.clone(),
            LiteralValue::STRING(s) => s.clone(),
            LiteralValue::True => "true".to_owned(),
            LiteralValue::False => "false".to_owned(),
            LiteralValue::Nil => "nil".to_owned(),
        }
    }

    /// Converts a token to the literal value it denotes, or reports that the
    /// token cannot begin a primary expression.
    pub fn from_token(token: Token) -> (r: Result<LiteralValue, ParseError>)
        ensures
            match r {
                Ok(v) => spec_from_token(token@) == Ok::<LiteralValueView, ParseErrorView>(v@),
                Err(e) => spec_from_token(token@) == Err::<LiteralValueView, ParseErrorView>(e@),
            },
    {
        match token._type {
            TokenType::NUM => match token.literal {
                crate::token::Literal::NUMBER(s) => Ok(LiteralValue::NUMBER(s)),
                _ => Err(ParseError::InvalidPrimary { line: token.line, found: token._type }),
            },
            TokenType::STR => match token.literal {
                crate::token::Literal::STRING(s) => Ok(LiteralValue::STRING(s)),
                _ => Err(ParseError::InvalidPrimary { line: token.line, found: token._type }),
            },
            TokenType::TRUE => Ok(LiteralValue::True),
            TokenType::FALSE => Ok(LiteralValue::False),
            TokenType::NIL => Ok(LiteralValue::Nil),
            _ => Err(ParseError::InvalidPrimary { line: token.line, found: token._type }),
        }
    }
}

impl Expr {
    /// Renders the tree in fully parenthesized prefix notation. The result
    /// is a function of the tree alone, so independently built trees of the
    /// same shape render to identical text.
    pub fn to_string(&self) -> (r: String)
        ensures
            r@ == spec_print(self@),
        decreases self,
    {
        match self {
            Expr::Binary { left, operator, right } => {
                let mut s: String = "(".to_owned();
                s.append(operator.lexeme.as_str());
                s.append(" ");
                let left_text = left.to_string();
                s.append(left_text.as_str());
                s.append(" ");
                let right_text = right.to_string();
                s.append(right_text.as_str());
                s.append(")");
                s
            },
            Expr::Grouping { expression } => {
                let mut s: String = "(group ".to_owned();
                let inner_text = expression.to_string();
                s.append(inner_text.as_str());
                s.append(")");
                s
            },
            Expr::Literal { value } => value.to_string(),
            Expr::Unary { operator, right } => {
                let mut s: String = "(".to_owned();
                s.append(operator.lexeme.as_str());
                s.append(" ");
                let right_text = right.to_string();
                s.append(right_text.as_str());
                s.append(")");
                s
            },
        }
    }
}

} // verus!
