//! The scanner: a maximal-munch tokenizer over a single forward cursor with
//! one character of look-ahead. It turns the source text into an ordered,
//! EOF-terminated token sequence, counting lines as it goes, and recovers
//! from malformed input: an unexpected character costs one diagnostic and one
//! character, an unterminated string costs one diagnostic and ends the scan.
//!
//! The whole tokenization is restated here as a spec function — one
//! `scan_step` per token starting position, folded by `spec_scan_from` — and
//! `scanTokens` is proved to produce exactly that sequence.
use vstd::prelude::*;

use crate::diag::{LexicalError, LexicalErrorView};
use crate::token::{Literal, LiteralView, Token, TokenType, TokenView};

verus! {

/// A decimal digit.
pub open spec fn is_digit(c: char) -> bool {
    '0' <= c && c <= '9'
}

/// A character that may begin an identifier: a letter or an underscore.
pub open spec fn is_alpha(c: char) -> bool {
    ('a' <= c && c <= 'z') || ('A' <= c && c <= 'Z') || c == '_'
}

/// A character that may continue an identifier.
pub open spec fn is_alphanumeric(c: char) -> bool {
    is_alpha(c) || is_digit(c)
}

/// The lower-case form of an ASCII letter; any other character is unchanged.
pub open spec fn lower_char(c: char) -> char {
    if 'A' <= c && c <= 'Z' {
        ((c as u32) + 32) as char
    } else {
        c
    }
}

/// A word lowered character by character, for the case-insensitive keyword
/// lookup.
pub open spec fn lower_word(w: Seq<char>) -> Seq<char> {
    w.map_values(|c: char| lower_char(c))
}

/// The fixed keyword table: the kind a lowered word denotes, or `None` when
/// the word is no keyword. Every identifier-shaped run of characters is held
/// against this table whole — never judged by its first letter alone.
pub open spec fn spec_keyword(w: Seq<char>) -> Option<TokenType> {
    if w == "and"@ {
        Some(TokenType::AND)
    } else if w == "class"@ {
        Some(TokenType::CLASS)
    } else if w == "else"@ {
        Some(TokenType::ELSE)
    } else if w == "false"@ {
        Some(TokenType::FALSE)
    } else if w == "for"@ {
        Some(TokenType::FOR)
    } else if w == "fun"@ {
        Some(TokenType::FUN)
    } else if w == "if"@ {
        Some(TokenType::IF)
    } else if w == "nil"@ {
        Some(TokenType::NIL)
    } else if w == "or"@ {
        Some(TokenType::OR)
    } else if w == "print"@ {
        Some(TokenType::PRINT)
    } else if w == "return"@ {
        Some(TokenType::RETURN)
    } else if w == "super"@ {
        Some(TokenType::SUPER)
    } else if w == "this"@ {
        Some(TokenType::THIS)
    } else if w == "true"@ {
        Some(TokenType::TRUE)
    } else if w == "var"@ {
        Some(TokenType::VAR)
    } else if w == "while"@ {
        Some(TokenType::WHILE)
    } else {
        None
    }
}

/// The first position at or after `pos` that does not hold a digit (the
/// source's length when digits run to its end).
pub open spec fn skip_digits(s: Seq<char>, pos: int) -> int
    decreases s.len() - pos,
{
    if pos < s.len() && is_digit(s[pos]) {
        skip_digits(s, pos + 1)
    } else {
        pos
    }
}

/// The first position at or after `pos` that does not hold an identifier
/// character.
pub open spec fn skip_alnum(s: Seq<char>, pos: int) -> int
    decreases s.len() - pos,
{
    if pos < s.len() && is_alphanumeric(s[pos]) {
        skip_alnum(s, pos + 1)
    } else {
        pos
    }
}

/// The first position at or after `pos` holding a newline, or the source's
/// length: where a line comment's consumption stops.
pub open spec fn skip_comment(s: Seq<char>, pos: int) -> int
    decreases s.len() - pos,
{
    if pos < s.len() && s[pos] != '\n' {
        skip_comment(s, pos + 1)
    } else {
        pos
    }
}

/// The first position at or after `pos` holding a closing double quote, or
/// the source's length when the string literal is unterminated.
pub open spec fn find_close_quote(s: Seq<char>, pos: int) -> int
    decreases s.len() - pos,
{
    if pos < s.len() && s[pos] != '"' {
        find_close_quote(s, pos + 1)
    } else {
        pos
    }
}

/// How many newlines stand in `s[from..to]`.
pub open spec fn count_newlines(s: Seq<char>, from: int, to: int) -> int
    decreases to - from,
{
    if from >= to {
        0
    } else {
        (if s[from] == '\n' {
            1int
        } else {
            0int
        }) + count_newlines(s, from + 1, to)
    }
}

/// The canonical decimal text of a numeral `digits[.digits]`: redundant
/// leading zeros leave the integer part, trailing zeros leave the fraction,
/// and a fraction reduced to nothing takes the point with it — so two
/// numerals carry equal canonical text exactly when they denote the same
/// value.
pub open spec fn canonical_decimal(w: Seq<char>) -> Seq<char> {
    let iend = skip_digits(w, 0);
    let a = strip_leading_zeros(w, 0, iend);
    if iend == w.len() {
        w.subrange(a, iend)
    } else {
        let b = trim_trailing_zeros(w, iend + 1, w.len() as int);
        if b == iend + 1 {
            w.subrange(a, iend)
        } else {
            w.subrange(a, b)
        }
    }
}

/// The first position of the digit run `[pos, iend)` that must stay: zeros
/// go, except the last digit.
pub open spec fn strip_leading_zeros(w: Seq<char>, pos: int, iend: int) -> int
    decreases iend - pos,
{
    if pos < iend - 1 && w[pos] == '0' {
        strip_leading_zeros(w, pos + 1, iend)
    } else {
        pos
    }
}

/// The position just past the last digit of the run `[from, pos)` that must
/// stay: trailing zeros go, possibly all of them.
pub open spec fn trim_trailing_zeros(w: Seq<char>, from: int, pos: int) -> int
    decreases pos - from,
{
    if pos > from && w[pos - 1] == '0' {
        trim_trailing_zeros(w, from, pos - 1)
    } else {
        pos
    }
}

/// What one scan step does, starting at `pos` on line `line`: where the
/// cursor stands afterwards, the line counter afterwards, and the at most
/// one token and at most one diagnostic the step yields.
pub ghost struct ScanStep {
    pub next: int,
    pub line: int,
    pub toks: Seq<TokenView>,
    pub errs: Seq<LexicalErrorView>,
}

/// A step that yields one token and nothing else.
pub open spec fn step_token(next: int, line: int, t: TokenView) -> ScanStep {
    ScanStep { next, line, toks: seq![t], errs: seq![] }
}

/// A step that yields nothing: whitespace, a newline, or a comment.
pub open spec fn step_skip(next: int, line: int) -> ScanStep {
    ScanStep { next, line, toks: seq![], errs: seq![] }
}

/// A token carrying no literal payload, with its lexeme cut from the source.
pub open spec fn plain_token(k: TokenType, s: Seq<char>, lo: int, hi: int, line: int) -> TokenView {
    TokenView { _type: k, lexeme: s.subrange(lo, hi), literal: LiteralView::NONE, line }
}

/// One step of the maximal-munch scan at position `pos` (which must be on
/// the source) with the line counter at `line`:
/// - single-character punctuation becomes its token;
/// - `!` `=` `<` `>` pair with a following `=` into the two-character
///   operator, consuming the `=` only when it is there;
/// - `//` consumes the rest of the line and yields nothing;
/// - whitespace yields nothing; a newline also bumps the line counter;
/// - `"` runs to the closing quote, counting the newlines inside (multi-line
///   strings are legal); a missing closing quote is the `UnterminatedString`
///   diagnostic and the step consumes the rest of the source;
/// - a digit begins a numeral `digits[.digits]`, whose token carries the
///   canonical decimal text of its value;
/// - a letter or `_` begins an identifier run, classified against the
///   keyword table whole;
/// - anything else is the `UnexpectedCharacter` diagnostic and the step
///   consumes exactly that character.
pub open spec fn scan_step(s: Seq<char>, pos: int, line: int) -> ScanStep {
    let c = s[pos];
    if c == '(' {
        step_token(pos + 1, line, plain_token(TokenType::LEFT_PAREN, s, pos, pos + 1, line))
    } else if c == ')' {
        step_token(pos + 1, line, plain_token(TokenType::RIGHT_PAREN, s, pos, pos + 1, line))
    } else if c == '{' {
        step_token(pos + 1, line, plain_token(TokenType::LEFT_BRACE, s, pos, pos + 1, line))
    } else if c == '}' {
        step_token(pos + 1, line, plain_token(TokenType::RIGHT_BRACE, s, pos, pos + 1, line))
    } else if c == ',' {
        step_token(pos + 1, line, plain_token(TokenType::COMMA, s, pos, pos + 1, line))
    } else if c == '.' {
        step_token(pos + 1, line, plain_token(TokenType::DOT, s, pos, pos + 1, line))
    } else if c == '-' {
        step_token(pos + 1, line, plain_token(TokenType::MINUS, s, pos, pos + 1, line))
    } else if c == '+' {
        step_token(pos + 1, line, plain_token(TokenType::PLUS, s, pos, pos + 1, line))
    } else if c == ';' {
        step_token(pos + 1, line, plain_token(TokenType::SEMICOLON, s, pos, pos + 1, line))
    } else if c == '*' {
        step_token(pos + 1, line, plain_token(TokenType::STAR, s, pos, pos + 1, line))
    } else if c == '!' {
        if pos + 1 < s.len() && s[pos + 1] == '=' {
            step_token(pos + 2, line, plain_token(TokenType::BANG_EQUAL, s, pos, pos + 2, line))
        } else {
            step_token(pos + 1, line, plain_token(TokenType::BANG, s, pos, pos + 1, line))
        }
    } else if c == '=' {
        if pos + 1 < s.len() && s[pos + 1] == '=' {
            step_token(pos + 2, line, plain_token(TokenType::EQUAL_EQUAL, s, pos, pos + 2, line))
        } else {
            step_token(pos + 1, line, plain_token(TokenType::EQUAL, s, pos, pos + 1, line))
        }
    } else if c == '<' {
        if pos + 1 < s.len() && s[pos + 1] == '=' {
            step_token(pos + 2, line, plain_token(TokenType::LESS_EQUAL, s, pos, pos + 2, line))
        } else {
            step_token(pos + 1, line, plain_token(TokenType::LESS, s, pos, pos + 1, line))
        }
    } else if c == '>' {
        if pos + 1 < s.len() && s[pos + 1] == '=' {
            step_token(pos + 2, line, plain_token(TokenType::GREATER_EQUAL, s, pos, pos + 2, line))
        } else {
            step_token(pos + 1, line, plain_token(TokenType::GREATER, s, pos, pos + 1, line))
        }
    } else if c == '/' {
        if pos + 1 < s.len() && s[pos + 1] == '/' {
            step_skip(skip_comment(s, pos + 2), line)
        } else {
            step_token(pos + 1, line, plain_token(TokenType::SLASH, s, pos, pos + 1, line))
        }
    } else if c == ' ' || c == '\r' || c == '\t' {
        step_skip(pos + 1, line)
    } else if c == '\n' {
        step_skip(pos + 1, line + 1)
    } else if c == '"' {
        let q = find_close_quote(s, pos + 1);
        if q < s.len() {
            let line2 = line + count_newlines(s, pos + 1, q);
            ScanStep {
                next: q + 1,
                line: line2,
                toks: seq![
                    TokenView {
                        _type: TokenType::STR,
                        lexeme: s.subrange(pos, q + 1),
                        literal: LiteralView::STRING(s.subrange(pos + 1, q)),
                        line: line2,
                    },
                ],
                errs: seq![],
            }
        } else {
            let line2 = line + count_newlines(s, pos + 1, s.len() as int);
            ScanStep {
                next: s.len() as int,
                line: line2,
                toks: seq![],
                errs: seq![LexicalErrorView::UnterminatedString { line: line2 }],
            }
        }
    } else if is_digit(c) {
        let ie = skip_digits(s, pos);
        let end = if ie < s.len() && s[ie] == '.' && ie + 1 < s.len() && is_digit(s[ie + 1]) {
            skip_digits(s, ie + 1)
        } else {
            ie
        };
        step_token(
            end,
            line,
            TokenView {
                _type: TokenType::NUM,
                lexeme: s.subrange(pos, end),
                literal: LiteralView::NUMBER(canonical_decimal(s.subrange(pos, end))),
                line,
            },
        )
    } else if is_alpha(c) {
        let end = skip_alnum(s, pos);
        let kind = match spec_keyword(lower_word(s.subrange(pos, end))) {
            Some(k) => k,
            None => TokenType::IDENTIFIER,
        };
        step_token(end, line, plain_token(kind, s, pos, end, line))
    } else {
        ScanStep {
            next: pos + 1,
            line,
            toks: seq![],
            errs: seq![LexicalErrorView::UnexpectedCharacter { line, character: c }],
        }
    }
}

/// The `EOF` sentinel appended when the cursor reaches the end of the
/// source: an empty lexeme, no payload, the final line number.
pub open spec fn eof_token(line: int) -> TokenView {
    TokenView { _type: TokenType::EOF, lexeme: Seq::empty(), literal: LiteralView::NONE, line }
}

/// The tokens and diagnostics of the whole scan from position `pos` on line
/// `line`: scan steps until the source is exhausted, then one `EOF` token.
pub open spec fn spec_scan_from(s: Seq<char>, pos: int, line: int) -> (Seq<TokenView>, Seq<
    LexicalErrorView,
>)
    decreases s.len() - pos,
{
    if !(0 <= pos < s.len()) {
        (seq![eof_token(line)], seq![])
    } else {
        let st = scan_step(s, pos, line);
        if pos < st.next <= s.len() {
            let rest = spec_scan_from(s, st.next, st.line);
            (st.toks + rest.0, st.errs + rest.1)
        } else {
            // not reached: a scan step always moves the cursor forward and
            // keeps it on the source (lemma_scan_step_advances)
            (seq![eof_token(line)], seq![])
        }
    }
}

/// The tokens and diagnostics of scanning the whole source, which starts on
/// line 1.
pub open spec fn spec_scan(s: Seq<char>) -> (Seq<TokenView>, Seq<LexicalErrorView>) {
    spec_scan_from(s, 0, 1)
}

/// The position `skip_digits` reaches stays on the source and never moves
/// backwards; every character it passed is a digit and the character it
/// stopped on (if any) is not.
pub proof fn lemma_skip_digits(s: Seq<char>, pos: int)
    requires
        0 <= pos <= s.len(),
    ensures
        pos <= skip_digits(s, pos) <= s.len(),
        forall|i: int| pos <= i < skip_digits(s, pos) ==> is_digit(s[i]),
        skip_digits(s, pos) < s.len() ==> !is_digit(s[skip_digits(s, pos)]),
    decreases s.len() - pos,
{
    if pos < s.len() && is_digit(s[pos]) {
        lemma_skip_digits(s, pos + 1);
    }
}

/// As `lemma_skip_digits`, for identifier characters.
pub proof fn lemma_skip_alnum(s: Seq<char>, pos: int)
    requires
        0 <= pos <= s.len(),
    ensures
        pos <= skip_alnum(s, pos) <= s.len(),
        forall|i: int| pos <= i < skip_alnum(s, pos) ==> is_alphanumeric(s[i]),
        skip_alnum(s, pos) < s.len() ==> !is_alphanumeric(s[skip_alnum(s, pos)]),
    decreases s.len() - pos,
{
    if pos < s.len() && is_alphanumeric(s[pos]) {
        lemma_skip_alnum(s, pos + 1);
    }
}

/// As `lemma_skip_digits`, for a comment's run to the end of its line.
pub proof fn lemma_skip_comment(s: Seq<char>, pos: int)
    requires
        0 <= pos <= s.len(),
    ensures
        pos <= skip_comment(s, pos) <= s.len(),
        skip_comment(s, pos) < s.len() ==> s[skip_comment(s, pos)] == '\n',
    decreases s.len() - pos,
{
    if pos < s.len() && s[pos] != '\n' {
        lemma_skip_comment(s, pos + 1);
    }
}

/// As `lemma_skip_digits`, for the search for a closing quote.
pub proof fn lemma_find_close_quote(s: Seq<char>, pos: int)
    requires
        0 <= pos <= s.len(),
    ensures
        pos <= find_close_quote(s, pos) <= s.len(),
        find_close_quote(s, pos) < s.len() ==> s[find_close_quote(s, pos)] == '"',
        forall|i: int| pos <= i < find_close_quote(s, pos) ==> s[i] != '"',
    decreases s.len() - pos,
{
    if pos < s.len() && s[pos] != '"' {
        lemma_find_close_quote(s, pos + 1);
    }
}

/// A newline count is never negative and never exceeds the width of its
/// range.
pub proof fn lemma_count_newlines_bounds(s: Seq<char>, from: int, to: int)
    ensures
        0 <= count_newlines(s, from, to),
        count_newlines(s, from, to) <= (if to >= from {
            to - from
        } else {
            0
        }),
    decreases to - from,
{
    if from < to {
        lemma_count_newlines_bounds(s, from + 1, to);
    }
}

/// Extending a counted range by one character on the right adds that
/// character's own count.
pub proof fn lemma_count_newlines_snoc(s: Seq<char>, from: int, to: int)
    requires
        from <= to,
    ensures
        count_newlines(s, from, to + 1) == count_newlines(s, from, to) + (if s[to] == '\n' {
            1int
        } else {
            0int
        }),
    decreases to - from,
{
    if from < to {
        lemma_count_newlines_snoc(s, from + 1, to);
    } else {
        assert(count_newlines(s, to + 1, to + 1) == 0);
    }
}

/// Every scan step on the source moves the cursor strictly forward, keeps it
/// on the source, and advances the line counter by at most one line per
/// consumed character.
pub proof fn lemma_scan_step_advances(s: Seq<char>, pos: int, line: int)
    requires
        0 <= pos < s.len(),
    ensures
        pos < scan_step(s, pos, line).next <= s.len(),
        line <= scan_step(s, pos, line).line <= line + (scan_step(s, pos, line).next - pos),
{
    let c = s[pos];
    if c == '/' && pos + 1 < s.len() && s[pos + 1] == '/' {
        lemma_skip_comment(s, pos + 2);
    } else if c == '"' {
        lemma_find_close_quote(s, pos + 1);
        let q = find_close_quote(s, pos + 1);
        if q < s.len() {
            lemma_count_newlines_bounds(s, pos + 1, q);
        } else {
            lemma_count_newlines_bounds(s, pos + 1, s.len() as int);
        }
    } else if is_digit(c) {
        lemma_skip_digits(s, pos);
        let ie = skip_digits(s, pos);
        if ie < s.len() && s[ie] == '.' && ie + 1 < s.len() && is_digit(s[ie + 1]) {
            lemma_skip_digits(s, ie + 1);
        }
    } else if is_alpha(c) {
        lemma_skip_alnum(s, pos);
    }
}

/// No scan step emits an `EOF` token: only the end of the scan appends the
/// one sentinel.
pub proof fn lemma_scan_step_no_eof(s: Seq<char>, pos: int, line: int)
    requires
        0 <= pos < s.len(),
    ensures
        forall|i: int|
            0 <= i < scan_step(s, pos, line).toks.len() ==> scan_step(s, pos, line).toks[i]._type
                != TokenType::EOF,
{
}

/// The token sequence of any scan is well formed: it ends with exactly one
/// `EOF` token and contains no other.
pub proof fn lemma_scan_wf(s: Seq<char>, pos: int, line: int)
    ensures
        crate::parser::wf_tokens(spec_scan_from(s, pos, line).0),
    decreases s.len() - pos,
{
    if !(0 <= pos < s.len()) {
    } else {
        let st = scan_step(s, pos, line);
        lemma_scan_step_advances(s, pos, line);
        lemma_scan_step_no_eof(s, pos, line);
        lemma_scan_wf(s, st.next, st.line);
        let rest = spec_scan_from(s, st.next, st.line).0;
        let combined = st.toks + rest;
        assert(combined.last() == rest.last());
        assert forall|i: int| 0 <= i < combined.len() - 1 implies combined[i]._type
            != TokenType::EOF by {
            if i < st.toks.len() {
                assert(combined[i] == st.toks[i]);
            } else {
                assert(combined[i] == rest[i - st.toks.len()]);
                assert(i - st.toks.len() < rest.len() - 1);
            }
        }
    }
}

/// The lower-case form of an ASCII letter, as executable code.
fn lower_char_exec(c: char) -> (r: char)
    ensures
        r == lower_char(c),
{
    if c >= 'A' && c <= 'Z' {
        (((c as u32) + 32) as u8) as char
    } else {
        c
    }
}

/// Whether the word `w`, lowered character by character, is exactly the word
/// `kw`.
fn word_is(w: &str, kw: &str) -> (r: bool)
    ensures
        r == (lower_word(w@) == kw@),
{
    let n = w.unicode_len();
    let m = kw.unicode_len();
    if n != m {
        proof {
            assert(lower_word(w@).len() == w@.len());
        }
        return false;
    }
    let mut i: usize = 0;
    loop
        invariant
            0 <= i <= n,
            n == w@.len(),
            n == kw@.len(),
            forall|j: int| 0 <= j < i ==> lower_word(w@)[j] == kw@[j],
        ensures
            i == n,
            forall|j: int| 0 <= j < n ==> lower_word(w@)[j] == kw@[j],
        decreases n - i,
    {
        if i >= n {
            break ;
        }
        let cw = lower_char_exec(w.get_char(i));
        let ck = kw.get_char(i);
        if cw != ck {
            proof {
                assert(lower_word(w@)[i as int] != kw@[i as int]);
            }
            return false;
        }
        i = i + 1;
    }
    proof {
        assert(lower_word(w@).len() == w@.len());
        assert(lower_word(w@) =~= kw@);
    }
    true
}

/// Classifies an identifier run: the keyword kind its lowered text denotes,
/// or `IDENTIFIER` when the whole run is no keyword.
fn keyword_kind(w: &str) -> (r: TokenType)
    ensures
        r == (match spec_keyword(lower_word(w@)) {
            Some(k) => k,
            None => TokenType::IDENTIFIER,
        }),
{
    if word_is(w, "and") {
        TokenType::AND
    } else if word_is(w, "class") {
        TokenType::CLASS
    } else if word_is(w, "else") {
        TokenType::ELSE
    } else if word_is(w, "false") {
        TokenType::FALSE
    } else if word_is(w, "for") {
        TokenType::FOR
    } else if word_is(w, "fun") {
        TokenType::FUN
    } else if word_is(w, "if") {
        TokenType::IF
    } else if word_is(w, "nil") {
        TokenType::NIL
    } else if word_is(w, "or") {
        TokenType::OR
    } else if word_is(w, "print") {
        TokenType::PRINT
    } else if word_is(w, "return") {
        TokenType::RETURN
    } else if word_is(w, "super") {
        TokenType::SUPER
    } else if word_is(w, "this") {
        TokenType::THIS
    } else if word_is(w, "true") {
        TokenType::TRUE
    } else if word_is(w, "var") {
        TokenType::VAR
    } else if word_is(w, "while") {
        TokenType::WHILE
    } else {
        TokenType::IDENTIFIER
    }
}

/// The canonical decimal text of the numeral `w`, as executable code.
fn canonical_of(w: &str) -> (r: String)
    ensures
        r@ == canonical_decimal(w@),
{
    let n = w.unicode_len();
    let mut iend: usize = 0;
    loop
        invariant
            0 <= iend <= n,
            n == w@.len(),
            skip_digits(w@, 0) == skip_digits(w@, iend as int),
        ensures
            0 <= iend <= n,
            skip_digits(w@, 0) == iend as int,
        decreases n - iend,
    {
        if iend >= n {
            break ;
        }
        let c = w.get_char(iend);
        if !(c >= '0' && c <= '9') {
            break ;
        }
        iend = iend + 1;
    }
    let mut a: usize = 0;
    loop
        invariant
            0 <= a <= n,
            a < iend || a == 0,
            iend <= n,
            n == w@.len(),
            strip_leading_zeros(w@, 0, iend as int) == strip_leading_zeros(w@, a as int, iend as int),
        ensures
            0 <= a <= n,
            a < iend || a == 0,
            strip_leading_zeros(w@, 0, iend as int) == a as int,
        decreases n - a,
    {
        if !(a + 1 < iend) {
            break ;
        }
        let c = w.get_char(a);
        if c != '0' {
            break ;
        }
        a = a + 1;
    }
    if iend == n {
        return w.substring_char(a, iend).to_owned();
    }
    let mut b: usize = n;
    loop
        invariant
            iend + 1 <= b <= n,
            iend < n == w@.len(),
            trim_trailing_zeros(w@, iend + 1, n as int) == trim_trailing_zeros(w@, iend + 1, b as int),
        ensures
            iend + 1 <= b <= n,
            trim_trailing_zeros(w@, iend + 1, n as int) == b as int,
        decreases b,
    {
        if !(b > iend + 1) {
            break ;
        }
        let c = w.get_char(b - 1);
        if c != '0' {
            break ;
        }
        b = b - 1;
    }
    if b == iend + 1 {
        w.substring_char(a, iend).to_owned()
    } else {
        w.substring_char(a, b).to_owned()
    }
}

/// The scanner: the source text, the tokens and diagnostics produced so far,
/// the first position of the lexeme being scanned, the cursor, and the line
/// counter.
#[allow(non_snake_case)]
pub struct Scanner {
    source: String,
    tokens: Vec<Token>,
    errors: Vec<LexicalError>,
    start: usize,
    current: usize,
    _line: usize,
}

impl Scanner {
    /// The characters of the source.
    pub closed spec fn src(&self) -> Seq<char> {
        self.source@
    }

    /// The models of the tokens produced so far.
    pub closed spec fn toks(&self) -> Seq<TokenView> {
        self.tokens@.map_values(|t: Token| t@)
    }

    /// The models of the diagnostics produced so far.
    pub closed spec fn errs(&self) -> Seq<LexicalErrorView> {
        self.errors@.map_values(|e: LexicalError| e@)
    }

    /// The first position of the lexeme being scanned.
    pub closed spec fn start_at(&self) -> int {
        self.start as int
    }

    /// The cursor position.
    pub closed spec fn cur(&self) -> int {
        self.current as int
    }

    /// The line counter.
    pub closed spec fn line(&self) -> int {
        self._line as int
    }

    /// The scanner's invariant: the lexeme start and the cursor stand on the
    /// source, the line counter grows by at most one per consumed character,
    /// and the source is short enough for every line number to fit the token
    /// record.
    pub open spec fn inv(&self) -> bool {
        &&& 0 <= self.start_at() <= self.cur() <= self.src().len()
        &&& 1 <= self.line() <= 1 + self.cur()
        &&& self.src().len() < 0x7fff_ffff
    }

    /// Takes ownership of the source text and stands the scanner at its
    /// start, on line 1, with nothing produced yet. The source must be short
    /// enough for every line number to fit the token record's line field.
    pub fn new(source: String) -> (r: Self)
        requires
            source@.len() < 0x7fff_ffff,
        ensures
            r.src() == source@,
            r.toks() == Seq::<TokenView>::empty(),
            r.errs() == Seq::<LexicalErrorView>::empty(),
            r.cur() == 0,
            r.line() == 1,
            r.inv(),
    {
        let r = Self {
            source,
            tokens: Vec::<Token>::new(),
            errors: Vec::<LexicalError>::new(),
            start: 0,
            current: 0,
            _line: 1,
        };
        proof {
            assert(r.toks() =~= Seq::<TokenView>::empty());
            assert(r.errs() =~= Seq::<LexicalErrorView>::empty());
        }
        r
    }

    /// Whether the cursor has consumed the whole source.
    #[allow(non_snake_case)]
    fn isAtEnd(&self) -> (r: bool)
        ensures
            r == (self.cur() >= self.src().len()),
    {
        self.current >= self.source.as_str().unicode_len()
    }

    /// The character at position `i` of the source.
    fn char_at(&self, i: usize) -> (c: char)
        requires
            i < self.src().len(),
        ensures
            c == self.src()[i as int],
    {
        self.source.as_str().get_char(i)
    }

    /// Consumes and returns the character under the cursor.
    fn advance(&mut self) -> (c: char)
        requires
            old(self).cur() < old(self).src().len(),
            old(self).src().len() < 0x7fff_ffff,
    ensures
            final(self).src() == old(self).src(),
            final(self).toks() == old(self).toks(),
            final(self).errs() == old(self).errs(),
            final(self).start_at() == old(self).start_at(),
            final(self).line() == old(self).line(),
            final(self).cur() == old(self).cur() + 1,
            c == old(self).src()[old(self).cur()],
    {
        let c = self.char_at(self.current);
        self.current = self.current + 1;
        c
    }

    /// Consumes the character under the cursor exactly when it is `expected`
    /// — the one-character look-ahead behind the two-character operators.
    fn omatch(&mut self, expected: char) -> (r: bool)
        requires
            old(self).cur() <= old(self).src().len(),
            old(self).src().len() < 0x7fff_ffff,
        ensures
            final(self).src() == old(self).src(),
            final(self).toks() == old(self).toks(),
            final(self).errs() == old(self).errs(),
            final(self).start_at() == old(self).start_at(),
            final(self).line() == old(self).line(),
            if old(self).cur() < old(self).src().len() && old(self).src()[old(self).cur()]
                == expected {
                r && final(self).cur() == old(self).cur() + 1
            } else {
                !r && final(self).cur() == old(self).cur()
            },
    {
        if self.isAtEnd() {
            return false;
        }
        let c = self.char_at(self.current);
        if c != expected {
            return false;
        }
        self.current = self.current + 1;
        true
    }

    /// Appends a token with no literal payload, whose lexeme runs from the
    /// lexeme start to the cursor.
    #[allow(non_snake_case)]
    fn addToken(&mut self, kind: TokenType)
        requires
            old(self).start_at() <= old(self).cur() <= old(self).src().len(),
            1 <= old(self).line() < 0x8000_0000,
        ensures
            final(self).src() == old(self).src(),
            final(self).errs() == old(self).errs(),
            final(self).start_at() == old(self).start_at(),
            final(self).cur() == old(self).cur(),
            final(self).line() == old(self).line(),
            final(self).toks() == old(self).toks().push(
                plain_token(kind, old(self).src(), old(self).start_at(), old(self).cur(), old(self).line()),
            ),
    {
        self.add_Token(kind, Literal::NONE)
    }

    /// Appends a token with the given literal payload, whose lexeme runs
    /// from the lexeme start to the cursor.
    #[allow(non_snake_case)]
    fn add_Token(&mut self, kind: TokenType, literal: Literal)
        requires
            old(self).start_at() <= old(self).cur() <= old(self).src().len(),
            1 <= old(self).line() < 0x8000_0000,
        ensures
            final(self).src() == old(self).src(),
            final(self).errs() == old(self).errs(),
            final(self).start_at() == old(self).start_at(),
            final(self).cur() == old(self).cur(),
            final(self).line() == old(self).line(),
            final(self).toks() == old(self).toks().push(
                TokenView {
                    _type: kind,
                    lexeme: old(self).src().subrange(old(self).start_at(), old(self).cur()),
                    literal: literal@,
                    line: old(self).line(),
                },
            ),
    {
        let text = self.source.as_str().substring_char(self.start, self.current).to_owned();
        let line = self._line as i32;
        let tok = Token::new(kind, text, literal, line);
        self.tokens.push(tok);
        proof {
            assert(self.toks() =~= old(self).toks().push(
                TokenView {
                    _type: kind,
                    lexeme: old(self).src().subrange(old(self).start_at(), old(self).cur()),
                    literal: literal@,
                    line: old(self).line(),
                },
            ));
        }
    }

    /// Appends a diagnostic.
    fn add_error(&mut self, e: LexicalError)
        ensures
            final(self).src() == old(self).src(),
            final(self).toks() == old(self).toks(),
            final(self).start_at() == old(self).start_at(),
            final(self).cur() == old(self).cur(),
            final(self).line() == old(self).line(),
            final(self).errs() == old(self).errs().push(e@),
    {
        self.errors.push(e);
        proof {
            assert(self.errs() =~= old(self).errs().push(e@));
        }
    }

    /// Scans the rest of a string literal, the opening quote already
    /// consumed: runs to the closing quote, counting newlines on the way, and
    /// appends the string token; a missing closing quote is the
    /// `UnterminatedString` diagnostic and consumes the rest of the source.
    fn string(&mut self)
        requires
            old(self).inv(),
            old(self).start_at() + 1 == old(self).cur(),
            old(self).src()[old(self).start_at()] == '"',
            old(self).line() + (old(self).src().len() - old(self).cur()) < 0x8000_0000,
        ensures
            final(self).src() == old(self).src(),
            final(self).start_at() == old(self).start_at(),
            ({
                let s = old(self).src();
                let p0 = old(self).cur();
                let q = find_close_quote(s, p0);
                if q < s.len() {
                    &&& final(self).cur() == q + 1
                    &&& final(self).line() == old(self).line() + count_newlines(s, p0, q)
                    &&& final(self).errs() == old(self).errs()
                    &&& final(self).toks() == old(self).toks().push(
                        TokenView {
                            _type: TokenType::STR,
                            lexeme: s.subrange(old(self).start_at(), q + 1),
                            literal: LiteralView::STRING(s.subrange(p0, q)),
                            line: old(self).line() + count_newlines(s, p0, q),
                        },
                    )
                } else {
                    &&& final(self).cur() == s.len()
                    &&& final(self).line() == old(self).line() + count_newlines(s, p0, s.len() as int)
                    &&& final(self).toks() == old(self).toks()
                    &&& final(self).errs() == old(self).errs().push(
                        LexicalErrorView::UnterminatedString {
                            line: old(self).line() + count_newlines(s, p0, s.len() as int),
                        },
                    )
                }
            }),
    {
        let ghost s = self.src();
        let ghost p0 = self.cur();
        let ghost line0 = self.line();
        proof {
            lemma_find_close_quote(s, p0);
        }
        loop
            invariant
                self.inv(),
                self.src() == s,
                self.start_at() == old(self).start_at(),
                self.toks() == old(self).toks(),
                self.errs() == old(self).errs(),
                p0 == old(self).cur(),
                line0 == old(self).line(),
                p0 <= self.cur() <= s.len(),
                line0 + (s.len() - p0) < 0x8000_0000,
                find_close_quote(s, p0) == find_close_quote(s, self.cur()),
                self.line() == line0 + count_newlines(s, p0, self.cur()),
                self.line() <= line0 + (self.cur() - p0),
            ensures
                self.inv(),
                self.src() == s,
                self.start_at() == old(self).start_at(),
                self.toks() == old(self).toks(),
                self.errs() == old(self).errs(),
                self.cur() == find_close_quote(s, p0),
                self.line() == line0 + count_newlines(s, p0, self.cur()),
            decreases s.len() - self.cur(),
        {
            if self.isAtEnd() {
                break ;
            }
            let c = self.char_at(self.current);
            if c == '"' {
                break ;
            }
            proof {
                lemma_count_newlines_snoc(s, p0, self.cur());
            }
            if c == '\n' {
                self._line = self._line + 1;
            }
            let _consumed = self.advance();
        }
        if self.isAtEnd() {
            let line = self._line as i32;
            self.add_error(LexicalError::UnterminatedString { line });
            return ;
        }
        let _closing = self.advance();
        let value = self.source.as_str().substring_char(self.start + 1, self.current - 1).to_owned();
        self.add_Token(TokenType::STR, Literal::STRING(value));
    }

    /// Scans the rest of a numeral, its first digit already consumed: the
    /// remaining digits, then one optional fraction — a point followed by at
    /// least one digit — and appends the number token, whose payload is the
    /// canonical decimal text of the numeral's value.
    fn number(&mut self)
        requires
            old(self).inv(),
            old(self).start_at() + 1 == old(self).cur(),
            is_digit(old(self).src()[old(self).start_at()]),
        ensures
            final(self).src() == old(self).src(),
            final(self).start_at() == old(self).start_at(),
            final(self).errs() == old(self).errs(),
            final(self).line() == old(self).line(),
            final(self).inv(),
            ({
                let s = old(self).src();
                let pos = old(self).start_at();
                let ie = skip_digits(s, pos);
                let end = if ie < s.len() && s[ie] == '.' && ie + 1 < s.len() && is_digit(s[ie + 1]) {
                    skip_digits(s, ie + 1)
                } else {
                    ie
                };
                &&& final(self).cur() == end
                &&& final(self).toks() == old(self).toks().push(
                    TokenView {
                        _type: TokenType::NUM,
                        lexeme: s.subrange(pos, end),
                        literal: LiteralView::NUMBER(canonical_decimal(s.subrange(pos, end))),
                        line: old(self).line(),
                    },
                )
            }),
    {
        let ghost s = self.src();
        let ghost pos = self.start_at();
        proof {
            lemma_skip_digits(s, pos);
        }
        loop
            invariant
                self.inv(),
                self.src() == s,
                self.start_at() == old(self).start_at(),
                self.toks() == old(self).toks(),
                self.errs() == old(self).errs(),
                self.line() == old(self).line(),
                pos == old(self).start_at(),
                pos < self.cur() <= s.len(),
                skip_digits(s, pos) == skip_digits(s, self.cur()),
            ensures
                self.inv(),
                self.src() == s,
                self.start_at() == old(self).start_at(),
                self.toks() == old(self).toks(),
                self.errs() == old(self).errs(),
                self.line() == old(self).line(),
                pos < self.cur() <= s.len(),
                self.cur() == skip_digits(s, pos),
            decreases s.len() - self.cur(),
        {
            if self.isAtEnd() {
                break ;
            }
            let c = self.char_at(self.current);
            if !(c >= '0' && c <= '9') {
                break ;
            }
            let _consumed = self.advance();
        }
        let ghost ie = skip_digits(s, pos);
        let mut has_fraction = false;
        if !self.isAtEnd() {
            let c = self.char_at(self.current);
            if c == '.' {
                if self.current + 1 < self.source.as_str().unicode_len() {
                    let c2 = self.char_at(self.current + 1);
                    if c2 >= '0' && c2 <= '9' {
                        has_fraction = true;
                    }
                }
            }
        }
        if has_fraction {
            let _point = self.advance();
            proof {
                lemma_skip_digits(s, ie + 1);
            }
            loop
                invariant
                    self.inv(),
                    self.src() == s,
                    self.start_at() == old(self).start_at(),
                    self.toks() == old(self).toks(),
                    self.errs() == old(self).errs(),
                    self.line() == old(self).line(),
                    pos == old(self).start_at(),
                    0 <= ie,
                    ie + 1 <= self.cur() <= s.len(),
                    skip_digits(s, ie + 1) == skip_digits(s, self.cur()),
                ensures
                    self.inv(),
                    self.src() == s,
                    self.start_at() == old(self).start_at(),
                    self.toks() == old(self).toks(),
                    self.errs() == old(self).errs(),
                    self.line() == old(self).line(),
                    ie + 1 <= self.cur() <= s.len(),
                    self.cur() == skip_digits(s, ie + 1),
                decreases s.len() - self.cur(),
            {
                if self.isAtEnd() {
                    break ;
                }
                let c = self.char_at(self.current);
                if !(c >= '0' && c <= '9') {
                    break ;
                }
                let _consumed = self.advance();
            }
        }
        let lexeme = self.source.as_str().substring_char(self.start, self.current).to_owned();
        let canon = canonical_of(lexeme.as_str());
        self.add_Token(TokenType::NUM, Literal::NUMBER(canon));
    }

    /// Scans the rest of an identifier run, its first character already
    /// consumed, and appends its token: a keyword's kind when the whole
    /// lowered run is that keyword, `IDENTIFIER` otherwise.
    fn identifier(&mut self)
        requires
            old(self).inv(),
            old(self).start_at() + 1 == old(self).cur(),
            is_alpha(old(self).src()[old(self).start_at()]),
        ensures
            final(self).src() == old(self).src(),
            final(self).start_at() == old(self).start_at(),
            final(self).errs() == old(self).errs(),
            final(self).line() == old(self).line(),
            final(self).inv(),
            ({
                let s = old(self).src();
                let pos = old(self).start_at();
                let end = skip_alnum(s, pos);
                let kind = match spec_keyword(lower_word(s.subrange(pos, end))) {
                    Some(k) => k,
                    None => TokenType::IDENTIFIER,
                };
                &&& final(self).cur() == end
                &&& final(self).toks() == old(self).toks().push(
                    plain_token(kind, s, pos, end, old(self).line()),
                )
            }),
    {
        let ghost s = self.src();
        let ghost pos = self.start_at();
        proof {
            lemma_skip_alnum(s, pos);
        }
        loop
            invariant
                self.inv(),
                self.src() == s,
                self.start_at() == old(self).start_at(),
                self.toks() == old(self).toks(),
                self.errs() == old(self).errs(),
                self.line() == old(self).line(),
                pos == old(self).start_at(),
                pos < self.cur() <= s.len(),
                skip_alnum(s, pos) == skip_alnum(s, self.cur()),
            ensures
                self.inv(),
                self.src() == s,
                self.start_at() == old(self).start_at(),
                self.toks() == old(self).toks(),
                self.errs() == old(self).errs(),
                self.line() == old(self).line(),
                pos < self.cur() <= s.len(),
                self.cur() == skip_alnum(s, pos),
            decreases s.len() - self.cur(),
        {
            if self.isAtEnd() {
                break ;
            }
            let c = self.char_at(self.current);
            let continuing = (c >= 'a' && c <= 'z') || (c >= 'A' && c <= 'Z') || c == '_' || (c >= '0'
                && c <= '9');
            if !continuing {
                break ;
            }
            let _consumed = self.advance();
        }
        let text = self.source.as_str().substring_char(self.start, self.current).to_owned();
        let kind = keyword_kind(text.as_str());
        self.addToken(kind);
    }

    /// Consumes a line comment's body: everything up to, but not including,
    /// the newline that ends it (or the end of the source). No token comes
    /// of it.
    fn line_comment(&mut self)
        requires
            old(self).inv(),
        ensures
            final(self).src() == old(self).src(),
            final(self).start_at() == old(self).start_at(),
            final(self).toks() == old(self).toks(),
            final(self).errs() == old(self).errs(),
            final(self).line() == old(self).line(),
            final(self).cur() == skip_comment(old(self).src(), old(self).cur()),
            final(self).inv(),
    {
        let ghost s = self.src();
        let ghost p0 = self.cur();
        proof {
            lemma_skip_comment(s, p0);
        }
        loop
            invariant
                self.inv(),
                self.src() == s,
                self.start_at() == old(self).start_at(),
                self.toks() == old(self).toks(),
                self.errs() == old(self).errs(),
                self.line() == old(self).line(),
                p0 <= self.cur() <= s.len(),
                skip_comment(s, p0) == skip_comment(s, self.cur()),
            ensures
                self.inv(),
                self.src() == s,
                self.start_at() == old(self).start_at(),
                self.toks() == old(self).toks(),
                self.errs() == old(self).errs(),
                self.line() == old(self).line(),
                self.cur() == skip_comment(s, p0),
            decreases s.len() - self.cur(),
        {
            if self.isAtEnd() {
                break ;
            }
            let c = self.char_at(self.current);
            if c == '\n' {
                break ;
            }
            let _consumed = self.advance();
        }
    }

    /// Scans exactly one step at the cursor — one token, one diagnostic, or
    /// nothing (whitespace, a newline, a comment) — exactly as `scan_step`
    /// says, moving the cursor and the line counter as it says.
    #[allow(non_snake_case)]
    fn scanToken(&mut self)
        requires
            old(self).inv(),
            old(self).start_at() == old(self).cur(),
            old(self).cur() < old(self).src().len(),
        ensures
            final(self).src() == old(self).src(),
            final(self).start_at() == old(self).start_at(),
            final(self).inv(),
            ({
                let st = scan_step(old(self).src(), old(self).cur(), old(self).line());
                &&& final(self).toks() == old(self).toks() + st.toks
                &&& final(self).errs() == old(self).errs() + st.errs
                &&& final(self).cur() == st.next
                &&& final(self).line() == st.line
            }),
    {
        let ghost s = self.src();
        let ghost pos = self.cur();
        let ghost line0 = self.line();
        let ghost st = scan_step(s, pos, line0);
        proof {
            lemma_scan_step_advances(s, pos, line0);
        }
        let c = self.advance();
        match c {
            '(' => self.addToken(TokenType::LEFT_PAREN),
            ')' => self.addToken(TokenType::RIGHT_PAREN),
            '{' => self.addToken(TokenType::LEFT_BRACE),
            '}' => self.addToken(TokenType::RIGHT_BRACE),
            ',' => self.addToken(TokenType::COMMA),
            '.' => self.addToken(TokenType::DOT),
            '-' => self.addToken(TokenType::MINUS),
            '+' => self.addToken(TokenType::PLUS),
            ';' => self.addToken(TokenType::SEMICOLON),
            '*' => self.addToken(TokenType::STAR),
            '!' => {
                if self.omatch('=') {
                    self.addToken(TokenType::BANG_EQUAL);
                } else {
                    self.addToken(TokenType::BANG);
                }
            },
            '=' => {
                if self.omatch('=') {
                    self.addToken(TokenType::EQUAL_EQUAL);
                } else {
                    self.addToken(TokenType::EQUAL);
                }
            },
            '<' => {
                if self.omatch('=') {
                    self.addToken(TokenType::LESS_EQUAL);
                } else {
                    self.addToken(TokenType::LESS);
                }
            },
            '>' => {
                if self.omatch('=') {
                    self.addToken(TokenType::GREATER_EQUAL);
                } else {
                    self.addToken(TokenType::GREATER);
                }
            },
            '/' => {
                if self.omatch('/') {
                    self.line_comment();
                } else {
                    self.addToken(TokenType::SLASH);
                }
            },
            ' ' => {},
            '\r' => {},
            '\t' => {},
            '\n' => {
                self._line = self._line + 1;
            },
            '"' => self.string(),
            _ => {
                if c >= '0' && c <= '9' {
                    self.number();
                } else if (c >= 'a' && c <= 'z') || (c >= 'A' && c <= 'Z') || c == '_' {
                    self.identifier();
                } else {
                    let line = self._line as i32;
                    self.add_error(LexicalError::UnexpectedCharacter { line, character: c });
                }
            },
        }
        proof {
            assert(self.toks() =~= old(self).toks() + st.toks);
            assert(self.errs() =~= old(self).errs() + st.errs);
        }
    }

    /// Scans the whole source: steps until it is exhausted, then appends the
    /// one `EOF` sentinel, and hands back the tokens. The result is exactly
    /// `spec_scan` of the source — well formed (one `EOF`, at the end), with
    /// the diagnostics accumulated on the side and available from
    /// `diagnostics`.
    #[allow(non_snake_case)]
    pub fn scanTokens(&mut self) -> (r: &Vec<Token>)
        requires
            old(self).inv(),
            old(self).cur() == 0,
            old(self).line() == 1,
            old(self).toks() == Seq::<TokenView>::empty(),
            old(self).errs() == Seq::<LexicalErrorView>::empty(),
        ensures
            final(self).src() == old(self).src(),
            final(self).toks() == spec_scan(old(self).src()).0,
            final(self).errs() == spec_scan(old(self).src()).1,
            crate::parser::wf_tokens(final(self).toks()),
            r@.map_values(|t: Token| t@) == final(self).toks(),
    {
        let ghost s0 = self.src();
        proof {
            assert(Seq::<TokenView>::empty() + spec_scan_from(s0, 0, 1).0 =~= spec_scan_from(
                s0,
                0,
                1,
            ).0);
            assert(Seq::<LexicalErrorView>::empty() + spec_scan_from(s0, 0, 1).1 =~= spec_scan_from(
                s0,
                0,
                1,
            ).1);
        }
        loop
            invariant
                self.inv(),
                self.src() == s0,
                0 <= self.cur() <= s0.len(),
                spec_scan(s0).0 == self.toks() + spec_scan_from(s0, self.cur(), self.line()).0,
                spec_scan(s0).1 == self.errs() + spec_scan_from(s0, self.cur(), self.line()).1,
            ensures
                self.inv(),
                self.src() == s0,
                self.cur() == s0.len(),
                spec_scan(s0).0 == self.toks() + spec_scan_from(s0, self.cur(), self.line()).0,
                spec_scan(s0).1 == self.errs() + spec_scan_from(s0, self.cur(), self.line()).1,
            decreases s0.len() - self.cur(),
        {
            if self.isAtEnd() {
                break ;
            }
            self.start = self.current;
            let ghost pos = self.cur();
            let ghost line_before = self.line();
            let ghost toks_before = self.toks();
            let ghost errs_before = self.errs();
            self.scanToken();
            proof {
                lemma_scan_step_advances(s0, pos, line_before);
                let st = scan_step(s0, pos, line_before);
                let rest = spec_scan_from(s0, st.next, st.line);
                assert(spec_scan_from(s0, pos, line_before).0 == st.toks + rest.0);
                assert(spec_scan_from(s0, pos, line_before).1 == st.errs + rest.1);
                assert(toks_before + (st.toks + rest.0) =~= (toks_before + st.toks) + rest.0);
                assert(errs_before + (st.errs + rest.1) =~= (errs_before + st.errs) + rest.1);
            }
        }
        let ghost line_end = self.line();
        let ghost toks_end = self.toks();
        proof {
            assert(spec_scan_from(s0, self.cur(), line_end).0 =~= seq![eof_token(line_end)]);
            assert(spec_scan_from(s0, self.cur(), line_end).1 =~= Seq::<LexicalErrorView>::empty());
        }
        let line = self._line as i32;
        self.tokens.push(Token::new(TokenType::EOF, String::new(), Literal::NONE, line));
        proof {
            assert(self.toks() =~= toks_end.push(eof_token(line_end)));
            assert(toks_end.push(eof_token(line_end)) =~= toks_end + seq![eof_token(line_end)]);
            assert(self.errs() + Seq::<LexicalErrorView>::empty() =~= self.errs());
            lemma_scan_wf(s0, 0, 1);
            assert(self.tokens@.map_values(|t: Token| t@) == self.toks());
        }
        &self.tokens
    }

    /// The diagnostics the scan produced, in source order.
    pub fn diagnostics(&self) -> (r: &Vec<LexicalError>)
        ensures
            r@.map_values(|e: LexicalError| e@) == self.errs(),
    {
        &self.errors
    }
}

/// Scanning the empty source yields exactly one token — the `EOF` sentinel,
/// on line 1 — and no diagnostics.
pub proof fn lemma_scan_empty()
    ensures
        spec_scan(Seq::<char>::empty()).0 == seq![eof_token(1)],
        spec_scan(Seq::<char>::empty()).1 == Seq::<LexicalErrorView>::empty(),
{
}

/// A source that is one whole numeral `digits[.digits]`: at least one digit,
/// then at most one point that must be followed by digits running to the end.
pub open spec fn is_number_lexeme(w: Seq<char>) -> bool {
    let ie = skip_digits(w, 0);
    &&& w.len() >= 1
    &&& is_digit(w[0])
    &&& (ie == w.len() || (ie + 1 < w.len() && w[ie] == '.' && skip_digits(w, ie + 1) == w.len()))
}

/// Scanning a source that is one whole numeral yields exactly one `NUMBER`
/// token — whose literal payload is the canonical decimal text of the
/// numeral's value and whose lexeme is the numeral itself — the `EOF`
/// sentinel, and no diagnostics.
pub proof fn lemma_scan_number(w: Seq<char>)
    requires
        is_number_lexeme(w),
    ensures
        spec_scan(w).0 == seq![
            TokenView {
                _type: TokenType::NUM,
                lexeme: w,
                literal: LiteralView::NUMBER(canonical_decimal(w)),
                line: 1,
            },
            eof_token(1),
        ],
        spec_scan(w).1 == Seq::<LexicalErrorView>::empty(),
{
    let ie = skip_digits(w, 0);
    lemma_skip_digits(w, 0);
    let st = scan_step(w, 0, 1);
    if ie != w.len() {
        lemma_skip_digits(w, ie + 1);
        assert(is_digit(w[ie + 1]));
    }
    assert(st.next == w.len());
    assert(w.subrange(0, w.len() as int) =~= w);
    assert(spec_scan_from(w, w.len() as int, 1).0 == seq![eof_token(1)]);
    assert(spec_scan(w).0 =~= seq![
        TokenView {
            _type: TokenType::NUM,
            lexeme: w,
            literal: LiteralView::NUMBER(canonical_decimal(w)),
            line: 1,
        },
        eof_token(1),
    ]);
    assert(spec_scan(w).1 =~= Seq::<LexicalErrorView>::empty());
}

/// Scanning a source that opens a string literal and never closes it yields
/// exactly one `UnterminatedString` diagnostic — and the token sequence is
/// still a well-formed, EOF-terminated one (`lemma_scan_wf` holds of every
/// source).
pub proof fn lemma_scan_unterminated_string(s: Seq<char>)
    requires
        s.len() >= 1,
        s[0] == '"',
        forall|i: int| 1 <= i < s.len() ==> s[i] != '"',
    ensures
        spec_scan(s).0 == seq![eof_token(1 + count_newlines(s, 1, s.len() as int))],
        spec_scan(s).1 == seq![
            LexicalErrorView::UnterminatedString { line: 1 + count_newlines(s, 1, s.len() as int) },
        ],
        crate::parser::wf_tokens(spec_scan(s).0),
{
    lemma_find_close_quote(s, 1);
    let q = find_close_quote(s, 1);
    assert(q == s.len());
    lemma_scan_wf(s, 0, 1);
    let st = scan_step(s, 0, 1);
    assert(st.next == s.len());
    assert(st.line == 1 + count_newlines(s, 1, s.len() as int));
    assert(spec_scan_from(s, s.len() as int, st.line).0 == seq![eof_token(st.line)]);
    assert(spec_scan(s).0 =~= seq![eof_token(1 + count_newlines(s, 1, s.len() as int))]);
    assert(spec_scan(s).1 =~= seq![
        LexicalErrorView::UnterminatedString { line: 1 + count_newlines(s, 1, s.len() as int) },
    ]);
}

/// Scanning a source that is one whole identifier-shaped word whose lowered
/// form is no keyword yields exactly one `IDENTIFIER` token carrying the
/// full word as its lexeme — whatever letter the word begins with — the
/// `EOF` sentinel, and no diagnostics.
pub proof fn lemma_scan_identifier(w: Seq<char>)
    requires
        w.len() >= 1,
        is_alpha(w[0]),
        forall|i: int| 1 <= i < w.len() ==> is_alphanumeric(w[i]),
        spec_keyword(lower_word(w)) is None,
    ensures
        spec_scan(w).0 == seq![
            plain_token(TokenType::IDENTIFIER, w, 0, w.len() as int, 1),
            eof_token(1),
        ],
        spec_scan(w).1 == Seq::<LexicalErrorView>::empty(),
{
    lemma_skip_alnum(w, 0);
    assert(skip_alnum(w, 0) == w.len());
    assert(w.subrange(0, w.len() as int) =~= w);
    let st = scan_step(w, 0, 1);
    assert(st.next == w.len());
    assert(spec_scan_from(w, w.len() as int, 1).0 == seq![eof_token(1)]);
    assert(spec_scan(w).0 =~= seq![
        plain_token(TokenType::IDENTIFIER, w, 0, w.len() as int, 1),
        eof_token(1),
    ]);
    assert(spec_scan(w).1 =~= Seq::<LexicalErrorView>::empty());
}

} // verus!
