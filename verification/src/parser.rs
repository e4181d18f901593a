//! The parser: a recursive-descent / precedence-climbing reader of the token
//! sequence. Each grammar level parses the next-tighter level and then folds
//! operators of its own set left-associatively; `unary` recurses to the
//! right; `primary` reads one literal token or a parenthesized group. The
//! grammar, from loosest to tightest binding:
//!
//! ```text
//! expression -> equality
//! equality   -> comparison (("!=" | "==") comparison)*
//! comparison -> term (( ">" | ">=" | "<" | "<=" ) term)*
//! term       -> factor (( "-" | "+" ) factor)*
//! factor     -> unary (( "/" | "*" ) unary)*
//! unary      -> ( "!" | "-" ) unary | primary
//! primary    -> "(" expression ")" | NUMBER | STRING | "true" | "false" | "nil"
//! ```
//!
//! The whole grammar is restated here as spec functions over token models,
//! and every executable method is proved to return exactly what they say.
use vstd::prelude::*;

use crate::ast::{spec_from_token, Expr, ExprView, LiteralValue};
use crate::diag::{ParseError, ParseErrorView};
use crate::token::{Token, TokenType, TokenView};

verus! {

/// The invariant of a scanned token sequence: it ends with exactly one `EOF`
/// token and contains no other `EOF`. The parser relies on it to never read
/// past the end of the sequence.
pub open spec fn wf_tokens(ts: Seq<TokenView>) -> bool {
    &&& ts.len() >= 1
    &&& ts.last()._type == TokenType::EOF
    &&& forall|i: int| 0 <= i < ts.len() - 1 ==> ts[i]._type != TokenType::EOF
}

/// The operator set of the `equality` level.
pub open spec fn is_equality_op(t: TokenType) -> bool {
    t == TokenType::BANG_EQUAL || t == TokenType::EQUAL_EQUAL
}

/// The operator set of the `comparison` level.
pub open spec fn is_comparison_op(t: TokenType) -> bool {
    ||| t == TokenType::GREATER
    ||| t == TokenType::GREATER_EQUAL
    ||| t == TokenType::LESS
    ||| t == TokenType::LESS_EQUAL
}

/// The operator set of the `term` level.
pub open spec fn is_term_op(t: TokenType) -> bool {
    t == TokenType::MINUS || t == TokenType::PLUS
}

/// The operator set of the `factor` level.
pub open spec fn is_factor_op(t: TokenType) -> bool {
    t == TokenType::SLASH || t == TokenType::STAR
}

/// The operator set of the `unary` level.
pub open spec fn is_unary_op(t: TokenType) -> bool {
    t == TokenType::BANG || t == TokenType::MINUS
}

/// What a parse at one grammar level yields: the tree it built and the
/// cursor position just past it, or the diagnostic that stopped the parse.
pub type ParseStep = Result<(ExprView, int), ParseErrorView>;

/// The value of the spec branches that no parse reaches: every successful
/// sub-parse moves the cursor strictly forward and keeps it on the sequence
/// (`lemma_expression_advances` and its companions), so the guards reading
/// this value always pass.
pub open spec fn parse_stuck() -> ParseErrorView {
    ParseErrorView::InvalidPrimary { line: 0, found: TokenType::EOF }
}

/// Parse of an `expression` starting at `pos`: the whole grammar's entry.
pub open spec fn spec_expression(ts: Seq<TokenView>, pos: int) -> ParseStep
    decreases ts.len() - pos, 6int,
{
    spec_equality(ts, pos)
}

/// Parse of an `equality`: one `comparison`, then a left-associative fold of
/// `!=` / `==` operators.
pub open spec fn spec_equality(ts: Seq<TokenView>, pos: int) -> ParseStep
    decreases ts.len() - pos, 5int,
{
    match spec_comparison(ts, pos) {
        Ok((e, p)) => if pos < p <= ts.len() {
            spec_equality_rest(ts, p, e)
        } else {
            Err(parse_stuck())
        },
        Err(er) => Err(er),
    }
}

/// The fold of the `equality` level: while the cursor stands on an equality
/// operator, consume it, parse one more `comparison`, and fold the result
/// into the left slot of a new binary node.
pub open spec fn spec_equality_rest(ts: Seq<TokenView>, pos: int, left: ExprView) -> ParseStep
    decreases ts.len() - pos, 0int,
{
    if pos < ts.len() && is_equality_op(ts[pos]._type) {
        match spec_comparison(ts, pos + 1) {
            Ok((r, p2)) => if pos < p2 <= ts.len() {
                spec_equality_rest(
                    ts,
                    p2,
                    ExprView::Binary { left: Box::new(left), operator: ts[pos], right: Box::new(r) },
                )
            } else {
                Err(parse_stuck())
            },
            Err(er) => Err(er),
        }
    } else {
        Ok((left, pos))
    }
}

/// Parse of a `comparison`: one `term`, then a left-associative fold of the
/// four comparison operators.
pub open spec fn spec_comparison(ts: Seq<TokenView>, pos: int) -> ParseStep
    decreases ts.len() - pos, 4int,
{
    match spec_term(ts, pos) {
        Ok((e, p)) => if pos < p <= ts.len() {
            spec_comparison_rest(ts, p, e)
        } else {
            Err(parse_stuck())
        },
        Err(er) => Err(er),
    }
}

/// The fold of the `comparison` level.
pub open spec fn spec_comparison_rest(ts: Seq<TokenView>, pos: int, left: ExprView) -> ParseStep
    decreases ts.len() - pos, 0int,
{
    if pos < ts.len() && is_comparison_op(ts[pos]._type) {
        match spec_term(ts, pos + 1) {
            Ok((r, p2)) => if pos < p2 <= ts.len() {
                spec_comparison_rest(
                    ts,
                    p2,
                    ExprView::Binary { left: Box::new(left), operator: ts[pos], right: Box::new(r) },
                )
            } else {
                Err(parse_stuck())
            },
            Err(er) => Err(er),
        }
    } else {
        Ok((left, pos))
    }
}

/// Parse of a `term`: one `factor`, then a left-associative fold of `-` / `+`.
pub open spec fn spec_term(ts: Seq<TokenView>, pos: int) -> ParseStep
    decreases ts.len() - pos, 3int,
{
    match spec_factor(ts, pos) {
        Ok((e, p)) => if pos < p <= ts.len() {
            spec_term_rest(ts, p, e)
        } else {
            Err(parse_stuck())
        },
        Err(er) => Err(er),
    }
}

/// The fold of the `term` level.
pub open spec fn spec_term_rest(ts: Seq<TokenView>, pos: int, left: ExprView) -> ParseStep
    decreases ts.len() - pos, 0int,
{
    if pos < ts.len() && is_term_op(ts[pos]._type) {
        match spec_factor(ts, pos + 1) {
            Ok((r, p2)) => if pos < p2 <= ts.len() {
                spec_term_rest(
                    ts,
                    p2,
                    ExprView::Binary { left: Box::new(left), operator: ts[pos], right: Box::new(r) },
                )
            } else {
                Err(parse_stuck())
            },
            Err(er) => Err(er),
        }
    } else {
        Ok((left, pos))
    }
}

/// Parse of a `factor`: one `unary`, then a left-associative fold of `/` / `*`.
pub open spec fn spec_factor(ts: Seq<TokenView>, pos: int) -> ParseStep
    decreases ts.len() - pos, 2int,
{
    match spec_unary(ts, pos) {
        Ok((e, p)) => if pos < p <= ts.len() {
            spec_factor_rest(ts, p, e)
        } else {
            Err(parse_stuck())
        },
        Err(er) => Err(er),
    }
}

/// The fold of the `factor` level.
pub open spec fn spec_factor_rest(ts: Seq<TokenView>, pos: int, left: ExprView) -> ParseStep
    decreases ts.len() - pos, 0int,
{
    if pos < ts.len() && is_factor_op(ts[pos]._type) {
        match spec_unary(ts, pos + 1) {
            Ok((r, p2)) => if pos < p2 <= ts.len() {
                spec_factor_rest(
                    ts,
                    p2,
                    ExprView::Binary { left: Box::new(left), operator: ts[pos], right: Box::new(r) },
                )
            } else {
                Err(parse_stuck())
            },
            Err(er) => Err(er),
        }
    } else {
        Ok((left, pos))
    }
}

/// Parse of a `unary`: `!` or `-` applied to another `unary` — so chains such
/// as `!!x` nest to the right — or else a `primary`.
pub open spec fn spec_unary(ts: Seq<TokenView>, pos: int) -> ParseStep
    decreases ts.len() - pos, 1int,
{
    if pos < ts.len() && is_unary_op(ts[pos]._type) {
        match spec_unary(ts, pos + 1) {
            Ok((r, p2)) => Ok(
                (ExprView::Unary { operator: ts[pos], right: Box::new(r) }, p2),
            ),
            Err(er) => Err(er),
        }
    } else {
        spec_primary(ts, pos)
    }
}

/// Parse of a `primary`, which consumes exactly one token unless it opens a
/// group: a `(` demands a full expression and a closing `)` — whose absence
/// is the fatal `ExpectedToken` diagnostic — and any other token must convert
/// to a literal value, or the parse stops with `InvalidPrimary`.
pub open spec fn spec_primary(ts: Seq<TokenView>, pos: int) -> ParseStep
    decreases ts.len() - pos, 0int,
{
    if pos < ts.len() && ts[pos]._type == TokenType::LEFT_PAREN {
        match spec_expression(ts, pos + 1) {
            Ok((inner, p)) => if 0 <= p < ts.len() && ts[p]._type == TokenType::RIGHT_PAREN {
                Ok((ExprView::Grouping { expression: Box::new(inner) }, p + 1))
            } else if 0 <= p < ts.len() {
                Err(
                    ParseErrorView::ExpectedToken {
                        line: ts[p].line,
                        expected: TokenType::RIGHT_PAREN,
                        found: ts[p]._type,
                    },
                )
            } else {
                Err(parse_stuck())
            },
            Err(er) => Err(er),
        }
    } else {
        match spec_from_token(ts[pos]) {
            Ok(v) => Ok((ExprView::Literal { value: v }, pos + 1)),
            Err(er) => Err(er),
        }
    }
}

/// A successful parse of an `expression` moves the cursor strictly forward
/// and never onto or past a position beyond the `EOF` sentinel.
pub proof fn lemma_expression_advances(ts: Seq<TokenView>, pos: int)
    requires
        wf_tokens(ts),
        0 <= pos <= ts.len() - 1,
    ensures
        spec_expression(ts, pos) matches Ok((e, p)) ==> pos < p <= ts.len() - 1,
    decreases ts.len() - pos, 6int,
{
    lemma_equality_advances(ts, pos);
}

/// A successful parse of an `equality` moves the cursor strictly forward.
pub proof fn lemma_equality_advances(ts: Seq<TokenView>, pos: int)
    requires
        wf_tokens(ts),
        0 <= pos <= ts.len() - 1,
    ensures
        spec_equality(ts, pos) matches Ok((e, p)) ==> pos < p <= ts.len() - 1,
    decreases ts.len() - pos, 5int,
{
    lemma_comparison_advances(ts, pos);
    if let Ok((e, p)) = spec_comparison(ts, pos) {
        lemma_equality_rest_advances(ts, p, e);
    }
}

/// The `equality` fold never moves the cursor backwards.
pub proof fn lemma_equality_rest_advances(ts: Seq<TokenView>, pos: int, left: ExprView)
    requires
        wf_tokens(ts),
        0 <= pos <= ts.len() - 1,
    ensures
        spec_equality_rest(ts, pos, left) matches Ok((e, p)) ==> pos <= p <= ts.len() - 1,
    decreases ts.len() - pos, 0int,
{
    if pos < ts.len() && is_equality_op(ts[pos]._type) {
        lemma_comparison_advances(ts, pos + 1);
        if let Ok((r, p2)) = spec_comparison(ts, pos + 1) {
            lemma_equality_rest_advances(
                ts,
                p2,
                ExprView::Binary { left: Box::new(left), operator: ts[pos], right: Box::new(r) },
            );
        }
    }
}

/// A successful parse of a `comparison` moves the cursor strictly forward.
pub proof fn lemma_comparison_advances(ts: Seq<TokenView>, pos: int)
    requires
        wf_tokens(ts),
        0 <= pos <= ts.len() - 1,
    ensures
        spec_comparison(ts, pos) matches Ok((e, p)) ==> pos < p <= ts.len() - 1,
    decreases ts.len() - pos, 4int,
{
    lemma_term_advances(ts, pos);
    if let Ok((e, p)) = spec_term(ts, pos) {
        lemma_comparison_rest_advances(ts, p, e);
    }
}

/// The `comparison` fold never moves the cursor backwards.
pub proof fn lemma_comparison_rest_advances(ts: Seq<TokenView>, pos: int, left: ExprView)
    requires
        wf_tokens(ts),
        0 <= pos <= ts.len() - 1,
    ensures
        spec_comparison_rest(ts, pos, left) matches Ok((e, p)) ==> pos <= p <= ts.len() - 1,
    decreases ts.len() - pos, 0int,
{
    if pos < ts.len() && is_comparison_op(ts[pos]._type) {
        lemma_term_advances(ts, pos + 1);
        if let Ok((r, p2)) = spec_term(ts, pos + 1) {
            lemma_comparison_rest_advances(
                ts,
                p2,
                ExprView::Binary { left: Box::new(left), operator: ts[pos], right: Box::new(r) },
            );
        }
    }
}

/// A successful parse of a `term` moves the cursor strictly forward.
pub proof fn lemma_term_advances(ts: Seq<TokenView>, pos: int)
    requires
        wf_tokens(ts),
        0 <= pos <= ts.len() - 1,
    ensures
        spec_term(ts, pos) matches Ok((e, p)) ==> pos < p <= ts.len() - 1,
    decreases ts.len() - pos, 3int,
{
    lemma_factor_advances(ts, pos);
    if let Ok((e, p)) = spec_factor(ts, pos) {
        lemma_term_rest_advances(ts, p, e);
    }
}

/// The `term` fold never moves the cursor backwards.
pub proof fn lemma_term_rest_advances(ts: Seq<TokenView>, pos: int, left: ExprView)
    requires
        wf_tokens(ts),
        0 <= pos <= ts.len() - 1,
    ensures
        spec_term_rest(ts, pos, left) matches Ok((e, p)) ==> pos <= p <= ts.len() - 1,
    decreases ts.len() - pos, 0int,
{
    if pos < ts.len() && is_term_op(ts[pos]._type) {
        lemma_factor_advances(ts, pos + 1);
        if let Ok((r, p2)) = spec_factor(ts, pos + 1) {
            lemma_term_rest_advances(
                ts,
                p2,
                ExprView::Binary { left: Box::new(left), operator: ts[pos], right: Box::new(r) },
            );
        }
    }
}

/// A successful parse of a `factor` moves the cursor strictly forward.
pub proof fn lemma_factor_advances(ts: Seq<TokenView>, pos: int)
    requires
        wf_tokens(ts),
        0 <= pos <= ts.len() - 1,
    ensures
        spec_factor(ts, pos) matches Ok((e, p)) ==> pos < p <= ts.len() - 1,
    decreases ts.len() - pos, 2int,
{
    lemma_unary_advances(ts, pos);
    if let Ok((e, p)) = spec_unary(ts, pos) {
        lemma_factor_rest_advances(ts, p, e);
    }
}

/// The `factor` fold never moves the cursor backwards.
pub proof fn lemma_factor_rest_advances(ts: Seq<TokenView>, pos: int, left: ExprView)
    requires
        wf_tokens(ts),
        0 <= pos <= ts.len() - 1,
    ensures
        spec_factor_rest(ts, pos, left) matches Ok((e, p)) ==> pos <= p <= ts.len() - 1,
    decreases ts.len() - pos, 0int,
{
    if pos < ts.len() && is_factor_op(ts[pos]._type) {
        lemma_unary_advances(ts, pos + 1);
        if let Ok((r, p2)) = spec_unary(ts, pos + 1) {
            lemma_factor_rest_advances(
                ts,
                p2,
                ExprView::Binary { left: Box::new(left), operator: ts[pos], right: Box::new(r) },
            );
        }
    }
}

/// A successful parse of a `unary` moves the cursor strictly forward.
pub proof fn lemma_unary_advances(ts: Seq<TokenView>, pos: int)
    requires
        wf_tokens(ts),
        0 <= pos <= ts.len() - 1,
    ensures
        spec_unary(ts, pos) matches Ok((e, p)) ==> pos < p <= ts.len() - 1,
    decreases ts.len() - pos, 1int,
{
    if pos < ts.len() && is_unary_op(ts[pos]._type) {
        lemma_unary_advances(ts, pos + 1);
    } else {
        lemma_primary_advances(ts, pos);
    }
}

/// A successful parse of a `primary` moves the cursor strictly forward.
pub proof fn lemma_primary_advances(ts: Seq<TokenView>, pos: int)
    requires
        wf_tokens(ts),
        0 <= pos <= ts.len() - 1,
    ensures
        spec_primary(ts, pos) matches Ok((e, p)) ==> pos < p <= ts.len() - 1,
    decreases ts.len() - pos, 0int,
{
    if pos < ts.len() && ts[pos]._type == TokenType::LEFT_PAREN {
        lemma_expression_advances(ts, pos + 1);
    }
}

/// Whether the executable outcome `r`, together with the cursor position
/// `endpos` it left behind, is exactly what the spec-level parse `step`
/// demands: on success the same tree and the same end position, on failure
/// the same diagnostic.
pub open spec fn parse_matches(step: ParseStep, r: Result<Expr, ParseError>, endpos: int) -> bool {
    match step {
        Ok(ep) => r matches Ok(e) && e@ == ep.0 && endpos == ep.1,
        Err(ev) => r matches Err(e) && e@ == ev,
    }
}

/// The parser: a read-only borrow-by-value of the token sequence and a
/// cursor into it. The cursor never moves past the `EOF` sentinel.
pub struct Parser {
    tokens: Vec<Token>,
    current: usize,
}

impl Parser {
    /// The models of the tokens being parsed.
    pub closed spec fn toks(&self) -> Seq<TokenView> {
        self.tokens@.map_values(|t: Token| t@)
    }

    /// The cursor position.
    pub closed spec fn cur(&self) -> int {
        self.current as int
    }

    /// The parser's invariant: the token sequence is well formed and the
    /// cursor stands on it, at worst on the `EOF` sentinel.
    pub open spec fn wf(&self) -> bool {
        &&& wf_tokens(self.toks())
        &&& 0 <= self.cur() <= self.toks().len() - 1
    }

    /// Takes ownership of a token sequence and stands the cursor at its
    /// start.
    pub fn new(tokens: Vec<Token>) -> (r: Self)
        ensures
            r.toks() == tokens@.map_values(|t: Token| t@),
            r.cur() == 0,
    {
        Self { tokens, current: 0 }
    }

    /// Parses one full expression from the cursor onward, leaving the cursor
    /// just past what was consumed, or yields the diagnostic that stopped the
    /// parse — never a partial tree.
    pub fn expression(&mut self) -> (r: Result<Expr, ParseError>)
        requires
            old(self).wf(),
        ensures
            final(self).toks() == old(self).toks(),
            final(self).wf(),
            parse_matches(spec_expression(old(self).toks(), old(self).cur()), r, final(self).cur()),
        decreases old(self).toks().len() - old(self).cur(), 6int,
    {
        self.equality()
    }

    fn equality(&mut self) -> (r: Result<Expr, ParseError>)
        requires
            old(self).wf(),
        ensures
            final(self).toks() == old(self).toks(),
            final(self).wf(),
            parse_matches(spec_equality(old(self).toks(), old(self).cur()), r, final(self).cur()),
        decreases old(self).toks().len() - old(self).cur(), 5int,
    {
        let ghost ts = self.toks();
        let ghost pos0 = self.cur();
        let mut expr: Expr = match self.comparison() {
            Ok(e) => e,
            Err(er) => {
                return Err(er);
            },
        };
        proof {
            lemma_comparison_advances(ts, pos0);
        }
        loop
            invariant
                ts == old(self).toks(),
                pos0 == old(self).cur(),
                self.wf(),
                self.toks() == ts,
                pos0 < self.cur(),
                spec_equality(ts, pos0) == spec_equality_rest(ts, self.cur(), expr@),
            ensures
                self.wf(),
                self.toks() == ts,
                spec_equality(ts, pos0) == Ok::<(ExprView, int), ParseErrorView>((expr@, self.cur())),
            decreases ts.len() - self.cur(),
        {
            let matched = self.match_token(TokenType::BANG_EQUAL) || self.match_token(
                TokenType::EQUAL_EQUAL,
            );
            if !matched {
                break ;
            }
            let op = self.previous().clone();
            proof {
                lemma_comparison_advances(ts, self.cur());
            }
            let right = match self.comparison() {
                Ok(e) => e,
                Err(er) => {
                    return Err(er);
                },
            };
            expr = Expr::Binary { left: Box::new(expr), operator: op, right: Box::new(right) };
        }
        Ok(expr)
    }

    fn comparison(&mut self) -> (r: Result<Expr, ParseError>)
        requires
            old(self).wf(),
        ensures
            final(self).toks() == old(self).toks(),
            final(self).wf(),
            parse_matches(spec_comparison(old(self).toks(), old(self).cur()), r, final(self).cur()),
        decreases old(self).toks().len() - old(self).cur(), 4int,
    {
        let ghost ts = self.toks();
        let ghost pos0 = self.cur();
        let mut expr: Expr = match self.term() {
            Ok(e) => e,
            Err(er) => {
                return Err(er);
            },
        };
        proof {
            lemma_term_advances(ts, pos0);
        }
        loop
            invariant
                ts == old(self).toks(),
                pos0 == old(self).cur(),
                self.wf(),
                self.toks() == ts,
                pos0 < self.cur(),
                spec_comparison(ts, pos0) == spec_comparison_rest(ts, self.cur(), expr@),
            ensures
                self.wf(),
                self.toks() == ts,
                spec_comparison(ts, pos0) == Ok::<(ExprView, int), ParseErrorView>((expr@, self.cur())),
            decreases ts.len() - self.cur(),
        {
            let matched = self.match_token(TokenType::GREATER) || self.match_token(
                TokenType::GREATER_EQUAL,
            ) || self.match_token(TokenType::LESS) || self.match_token(TokenType::LESS_EQUAL);
            if !matched {
                break ;
            }
            let op = self.previous().clone();
            proof {
                lemma_term_advances(ts, self.cur());
            }
            let right = match self.term() {
                Ok(e) => e,
                Err(er) => {
                    return Err(er);
                },
            };
            expr = Expr::Binary { left: Box::new(expr), operator: op, right: Box::new(right) };
        }
        Ok(expr)
    }

    fn term(&mut self) -> (r: Result<Expr, ParseError>)
        requires
            old(self).wf(),
        ensures
            final(self).toks() == old(self).toks(),
            final(self).wf(),
            parse_matches(spec_term(old(self).toks(), old(self).cur()), r, final(self).cur()),
        decreases old(self).toks().len() - old(self).cur(), 3int,
    {
        let ghost ts = self.toks();
        let ghost pos0 = self.cur();
        let mut expr: Expr = match self.factor() {
            Ok(e) => e,
            Err(er) => {
                return Err(er);
            },
        };
        proof {
            lemma_factor_advances(ts, pos0);
        }
        loop
            invariant
                ts == old(self).toks(),
                pos0 == old(self).cur(),
                self.wf(),
                self.toks() == ts,
                pos0 < self.cur(),
                spec_term(ts, pos0) == spec_term_rest(ts, self.cur(), expr@),
            ensures
                self.wf(),
                self.toks() == ts,
                spec_term(ts, pos0) == Ok::<(ExprView, int), ParseErrorView>((expr@, self.cur())),
            decreases ts.len() - self.cur(),
        {
            let matched = self.match_token(TokenType::MINUS) || self.match_token(TokenType::PLUS);
            if !matched {
                break ;
            }
            let op = self.previous().clone();
            proof {
                lemma_factor_advances(ts, self.cur());
            }
            let right = match self.factor() {
                Ok(e) => e,
                Err(er) => {
                    return Err(er);
                },
            };
            expr = Expr::Binary { left: Box::new(expr), operator: op, right: Box::new(right) };
        }
        Ok(expr)
    }

    fn factor(&mut self) -> (r: Result<Expr, ParseError>)
        requires
            old(self).wf(),
        ensures
            final(self).toks() == old(self).toks(),
            final(self).wf(),
            parse_matches(spec_factor(old(self).toks(), old(self).cur()), r, final(self).cur()),
        decreases old(self).toks().len() - old(self).cur(), 2int,
    {
        let ghost ts = self.toks();
        let ghost pos0 = self.cur();
        let mut expr: Expr = match self.unary() {
            Ok(e) => e,
            Err(er) => {
                return Err(er);
            },
        };
        proof {
            lemma_unary_advances(ts, pos0);
        }
        loop
            invariant
                ts == old(self).toks(),
                pos0 == old(self).cur(),
                self.wf(),
                self.toks() == ts,
                pos0 < self.cur(),
                spec_factor(ts, pos0) == spec_factor_rest(ts, self.cur(), expr@),
            ensures
                self.wf(),
                self.toks() == ts,
                spec_factor(ts, pos0) == Ok::<(ExprView, int), ParseErrorView>((expr@, self.cur())),
            decreases ts.len() - self.cur(),
        {
            let matched = self.match_token(TokenType::SLASH) || self.match_token(TokenType::STAR);
            if !matched {
                break ;
            }
            let op = self.previous().clone();
            proof {
                lemma_unary_advances(ts, self.cur());
            }
            let right = match self.unary() {
                Ok(e) => e,
                Err(er) => {
                    return Err(er);
                },
            };
            expr = Expr::Binary { left: Box::new(expr), operator: op, right: Box::new(right) };
        }
        Ok(expr)
    }

    fn unary(&mut self) -> (r: Result<Expr, ParseError>)
        requires
            old(self).wf(),
        ensures
            final(self).toks() == old(self).toks(),
            final(self).wf(),
            parse_matches(spec_unary(old(self).toks(), old(self).cur()), r, final(self).cur()),
        decreases old(self).toks().len() - old(self).cur(), 1int,
    {
        let matched = self.match_token(TokenType::BANG) || self.match_token(TokenType::MINUS);
        if matched {
            let op = self.previous().clone();
            let right = match self.unary() {
                Ok(e) => e,
                Err(er) => {
                    return Err(er);
                },
            };
            Ok(Expr::Unary { operator: op, right: Box::new(right) })
        } else {
            self.primary()
        }
    }

    fn primary(&mut self) -> (r: Result<Expr, ParseError>)
        requires
            old(self).wf(),
        ensures
            final(self).toks() == old(self).toks(),
            final(self).wf(),
            parse_matches(spec_primary(old(self).toks(), old(self).cur()), r, final(self).cur()),
        decreases old(self).toks().len() - old(self).cur(), 0int,
    {
        let ghost ts = self.toks();
        let ghost pos0 = self.cur();
        if self.match_token(TokenType::LEFT_PAREN) {
            let expr = match self.expression() {
                Ok(e) => e,
                Err(er) => {
                    return Err(er);
                },
            };
            proof {
                lemma_expression_advances(ts, pos0 + 1);
            }
            match self.consume(TokenType::RIGHT_PAREN) {
                Ok(()) => Ok(Expr::Grouping { expression: Box::new(expr) }),
                Err(er) => Err(er),
            }
        } else {
            let token = self.peek().clone();
            match LiteralValue::from_token(token) {
                Ok(v) => {
                    self.advance();
                    Ok(Expr::Literal { value: v })
                },
                Err(er) => Err(er),
            }
        }
    }

    /// Consumes the current token when its kind is `typ`; otherwise reports
    /// `false` and leaves the cursor alone. The `EOF` sentinel is never
    /// consumed.
    fn match_token(&mut self, typ: TokenType) -> (r: bool)
        requires
            old(self).wf(),
        ensures
            final(self).toks() == old(self).toks(),
            final(self).wf(),
            ({
                let t = old(self).toks()[old(self).cur()]._type;
                if t == typ && t != TokenType::EOF {
                    r && final(self).cur() == old(self).cur() + 1
                } else {
                    !r && final(self).cur() == old(self).cur()
                }
            }),
    {
        if self.is_at_end() {
            false
        } else if self.peek()._type == typ {
            self.advance();
            true
        } else {
            false
        }
    }

    /// The token just before the cursor.
    fn previous(&self) -> (r: &Token)
        requires
            self.wf(),
            self.cur() >= 1,
        ensures
            r@ == self.toks()[self.cur() - 1],
    {
        &self.tokens[self.current - 1]
    }

    /// The token under the cursor.
    fn peek(&self) -> (r: &Token)
        requires
            self.wf(),
        ensures
            r@ == self.toks()[self.cur()],
    {
        &self.tokens[self.current]
    }

    /// Moves the cursor one token forward, unless it already stands on the
    /// `EOF` sentinel.
    fn advance(&mut self)
        requires
            old(self).wf(),
        ensures
            final(self).toks() == old(self).toks(),
            final(self).wf(),
            if old(self).toks()[old(self).cur()]._type == TokenType::EOF {
                final(self).cur() == old(self).cur()
            } else {
                final(self).cur() == old(self).cur() + 1
            },
    {
        let n = self.tokens.len();
        proof {
            assert(self.toks().len() == self.tokens@.len());
        }
        if !self.is_at_end() {
            assert(self.current < n - 1);
            self.current = self.current + 1;
        }
    }

    /// Whether the cursor stands on the `EOF` sentinel, which is never
    /// consumed.
    fn is_at_end(&self) -> (r: bool)
        requires
            self.wf(),
        ensures
            r == (self.toks()[self.cur()]._type == TokenType::EOF),
            r == (self.cur() == self.toks().len() - 1),
    {
        self.peek()._type == TokenType::EOF
    }

    /// Demands that the current token have kind `expected` (never `EOF`) and
    /// consumes it; a token of any other kind is the fatal `ExpectedToken`
    /// diagnostic, with the cursor left on the offending token.
    fn consume(&mut self, expected: TokenType) -> (r: Result<(), ParseError>)
        requires
            old(self).wf(),
            expected != TokenType::EOF,
        ensures
            final(self).toks() == old(self).toks(),
            final(self).wf(),
            ({
                let t = old(self).toks()[old(self).cur()];
                if t._type == expected {
                    r is Ok && final(self).cur() == old(self).cur() + 1
                } else {
                    r matches Err(er) && er@ == (ParseErrorView::ExpectedToken {
                        line: t.line,
                        expected: expected,
                        found: t._type,
                    }) && final(self).cur() == old(self).cur()
                }
            }),
    {
        let found = self.peek()._type;
        if found == expected {
            self.advance();
            Ok(())
        } else {
            let line = self.peek().line;
            Err(ParseError::ExpectedToken { line, expected, found })
        }
    }
}

} // verus!
