//! The lexical model: the closed set of token kinds, the literal payload a
//! token may carry, and the immutable token record the scanner produces.
use vstd::prelude::*;

verus! {

/// The closed set of token kinds: single-character punctuation,
/// one-or-two-character operators, the three literal kinds, the fixed
/// keywords, and the `EOF` sentinel.
#[allow(non_camel_case_types)]
#[derive(Clone, Copy, Debug, PartialEq, Eq, Structural)]
pub enum TokenType {
    LEFT_PAREN,
    RIGHT_PAREN,
    LEFT_BRACE,
    RIGHT_BRACE,
    COMMA,
    DOT,
    MINUS,
    PLUS,
    SEMICOLON,
    SLASH,
    STAR,
    BANG,
    BANG_EQUAL,
    EQUAL,
    EQUAL_EQUAL,
    GREATER,
    GREATER_EQUAL,
    LESS,
    LESS_EQUAL,
    IDENTIFIER,
    STR,
    NUM,
    AND,
    CLASS,
    ELSE,
    FALSE,
    FUN,
    FOR,
    IF,
    NIL,
    OR,
    PRINT,
    RETURN,
    SUPER,
    THIS,
    TRUE,
    VAR,
    WHILE,
    EOF,
}

/// The literal payload of a token. Only string and number tokens carry one;
/// every other token carries `NONE`. A number is held as its value's
/// canonical decimal text (no redundant leading zeros in the integer part,
/// no trailing zeros and no dangling point in the fraction), so that equal
/// payloads mean equal numeric values.
#[allow(non_camel_case_types)]
#[derive(Debug)]
pub enum Literal {
    STRING(String),
    NUMBER(String),
    NONE,
}

/// The mathematical model of a `Literal`: the same three cases over
/// character sequences.
pub ghost enum LiteralView {
    STRING(Seq<char>),
    NUMBER(Seq<char>),
    NONE,
}

impl View for Literal {
    type V = LiteralView;

    open spec fn view(&self) -> LiteralView {
        match self {
            Literal::STRING(s) => LiteralView::STRING(s@),
            Literal::NUMBER(s) => LiteralView::NUMBER(s@),
            Literal::NONE => LiteralView::NONE,
        }
    }
}

impl Clone for Literal {
    fn clone(&self) -> (r: Self)
        ensures
            r == *self,
    {
        match self {
            Literal::STRING(s) => Literal::STRING(s.clone()),
            Literal::NUMBER(s) => Literal::NUMBER(s.clone()),
            Literal::NONE => Literal::NONE,
        }
    }
}

impl Literal {
    /// Extracts the text of a string payload; `None` for any other payload.
    #[allow(non_snake_case)]
    pub fn unwrap_as_String(lit: Self) -> (r: Option<String>)
        ensures
            match lit {
                Literal::STRING(s) => r == Some(s),
                _ => r is None,
            },
    {
        match lit {
            Literal::STRING(s) => Some(s),
            _ => None,
        }
    }

    /// Extracts the canonical decimal text of a number payload; `None` for
    /// any other payload.
    pub fn unwrap_as_number(lit: Self) -> (r: Option<String>)
        ensures
            match lit {
                Literal::NUMBER(s) => r == Some(s),
                _ => r is None,
            },
    {
        match lit {
            Literal::NUMBER(s) => Some(s),
            _ => None,
        }
    }
}

/// A classified unit of lexical input: its kind, the exact source text that
/// produced it, an optional literal payload, and the line it ended on.
/// Created once by the scanner and never mutated afterwards.
#[derive(Debug)]
pub struct Token {
    pub _type: TokenType,
    pub lexeme: String,
    pub literal: Literal,
    pub line: i32,
}

/// The mathematical model of a `Token`.
pub ghost struct TokenView {
    pub _type: TokenType,
    pub lexeme: Seq<char>,
    pub literal: LiteralView,
    pub line: int,
}

impl View for Token {
    type V = TokenView;

    open spec fn view(&self) -> TokenView {
        TokenView { _type: self._type, lexeme: self.lexeme@, literal: self.literal@, line: self.line as int }
    }
}

/// The display name of a token kind.
pub open spec fn spec_kind_name(t: TokenType) -> Seq<char> {
    match t {
        TokenType::LEFT_PAREN => "LEFT_PAREN"@,
        TokenType::RIGHT_PAREN => "RIGHT_PAREN"@,
        TokenType::LEFT_BRACE => "LEFT_BRACE"@,
        TokenType::RIGHT_BRACE => "RIGHT_BRACE"@,
        TokenType::COMMA => "COMMA"@,
        TokenType::DOT => "DOT"@,
        TokenType::MINUS => "MINUS"@,
        TokenType::PLUS => "PLUS"@,
        TokenType::SEMICOLON => "SEMICOLON"@,
        TokenType::SLASH => "SLASH"@,
        TokenType::STAR => "STAR"@,
        TokenType::BANG => "BANG"@,
        TokenType::BANG_EQUAL => "BANG_EQUAL"@,
        TokenType::EQUAL => "EQUAL"@,
        TokenType::EQUAL_EQUAL => "EQUAL_EQUAL"@,
        TokenType::GREATER => "GREATER"@,
        TokenType::GREATER_EQUAL => "GREATER_EQUAL"@,
        TokenType::LESS => "LESS"@,
        TokenType::LESS_EQUAL => "LESS_EQUAL"@,
        TokenType::IDENTIFIER => "IDENTIFIER"@,
        TokenType::STR => "STR"@,
        TokenType::NUM => "NUM"@,
        TokenType::AND => "AND"@,
        TokenType::CLASS => "CLASS"@,
        TokenType::ELSE => "ELSE"@,
        TokenType::FALSE => "FALSE"@,
        TokenType::FUN => "FUN"@,
        TokenType::FOR => "FOR"@,
        TokenType::IF => "IF"@,
        TokenType::NIL => "NIL"@,
        TokenType::OR => "OR"@,
        TokenType::PRINT => "PRINT"@,
        TokenType::RETURN => "RETURN"@,
        TokenType::SUPER => "SUPER"@,
        TokenType::THIS => "THIS"@,
        TokenType::TRUE => "TRUE"@,
        TokenType::VAR => "VAR"@,
        TokenType::WHILE => "WHILE"@,
        TokenType::EOF => "EOF"@,
    }
}

/// The display name of a token kind, as executable code.
pub fn kind_name(t: TokenType) -> (r: &'static str)
    ensures
        r@ == spec_kind_name(t),
{
    match t {
        TokenType::LEFT_PAREN => "LEFT_PAREN",
        TokenType::RIGHT_PAREN => "RIGHT_PAREN",
        TokenType::LEFT_BRACE => "LEFT_BRACE",
        TokenType::RIGHT_BRACE => "RIGHT_BRACE",
        TokenType::COMMA => "COMMA",
        TokenType::DOT => "DOT",
        TokenType::MINUS => "MINUS",
        TokenType::PLUS => "PLUS",
        TokenType::SEMICOLON => "SEMICOLON",
        TokenType::SLASH => "SLASH",
        TokenType::STAR => "STAR",
        TokenType::BANG => "BANG",
        TokenType::BANG_EQUAL => "BANG_EQUAL",
        TokenType::EQUAL => "EQUAL",
        TokenType::EQUAL_EQUAL => "EQUAL_EQUAL",
        TokenType::GREATER => "GREATER",
        TokenType::GREATER_EQUAL => "GREATER_EQUAL",
        TokenType::LESS => "LESS",
        TokenType::LESS_EQUAL => "LESS_EQUAL",
        TokenType::IDENTIFIER => "IDENTIFIER",
        TokenType::STR => "STR",
        TokenType::NUM => "NUM",
        TokenType::AND => "AND",
        TokenType::CLASS => "CLASS",
        TokenType::ELSE => "ELSE",
        TokenType::FALSE => "FALSE",
        TokenType::FUN => "FUN",
        TokenType::FOR => "FOR",
        TokenType::IF => "IF",
        TokenType::NIL => "NIL",
        TokenType::OR => "OR",
        TokenType::PRINT => "PRINT",
        TokenType::RETURN => "RETURN",
        TokenType::SUPER => "SUPER",
        TokenType::THIS => "THIS",
        TokenType::TRUE => "TRUE",
        TokenType::VAR => "VAR",
        TokenType::WHILE => "WHILE",
        TokenType::EOF => "EOF",
    }
}

/// The display text of a literal payload: the carried text for strings and
/// numbers, the word `NONE` for an absent payload.
pub open spec fn spec_literal_text(l: LiteralView) -> Seq<char> {
    match l {
        LiteralView::STRING(s) => s,
        LiteralView::NUMBER(s) => s,
        LiteralView::NONE => "NONE"@,
    }
}

/// The rendering of a token: its kind's name, its lexeme, and its literal
/// payload, separated by single spaces.
pub open spec fn spec_token_text(t: TokenView) -> Seq<char> {
    spec_kind_name(t._type) + " "@ + t.lexeme + " "@ + spec_literal_text(t.literal)
}

impl Clone for Token {
    fn clone(&self) -> (r: Self)
        ensures
            r == *self,
    {
        Token {
            _type: self._type,
            lexeme: self.lexeme.clone(),
            literal: self.literal.clone(),
            line: self.line,
        }
    }
}

impl Token {
    /// Builds a token record from its four parts.
    pub fn new(_type: TokenType, lexeme: String, literal: Literal, line: i32) -> (r: Self)
        ensures
            r._type == _type,
            r.lexeme == lexeme,
            r.literal == literal,
            r.line == line,
    {
        Self { _type, lexeme, literal, line }
    }

    /// Renders the token for debugging: kind name, lexeme and literal
    /// payload, separated by single spaces.
    #[allow(non_snake_case)]
    pub fn toString(&self) -> (r: String)
        ensures
            r@ == spec_token_text(self@),
    {
        let mut s: String = kind_name(self._type).to_owned();
        s.append(" ");
        s.append(self.lexeme.as_str());
        s.append(" ");
        match &self.literal {
            Literal::STRING(x) => s.append(x.as_str()),
            Literal::NUMBER(x) => s.append(x.as_str()),
            Literal::NONE => s.append("NONE"),
        }
        s
    }
}

} // verus!
