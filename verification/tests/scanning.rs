use lox_front::diag::LexicalError;
use lox_front::scanner::Scanner;
use lox_front::token::{Literal, Token, TokenType};

fn scan(src: &str) -> (Vec<Token>, Vec<LexicalError>) {
    let mut scanner = Scanner::new(src.to_string());
    let tokens = scanner.scanTokens().clone();
    let errors = scanner.diagnostics().clone();
    (tokens, errors)
}

#[test]
fn empty_source_is_one_eof_and_no_diagnostics() {
    let (tokens, errors) = scan("");
    assert_eq!(tokens.len(), 1);
    assert_eq!(tokens[0]._type, TokenType::EOF);
    assert_eq!(tokens[0].lexeme, "");
    assert_eq!(tokens[0].line, 1);
    assert_eq!(errors.len(), 0);
}

#[test]
fn integer_numeral_is_one_number_token() {
    let (tokens, errors) = scan("123");
    assert_eq!(errors.len(), 0);
    assert_eq!(tokens.len(), 2);
    assert_eq!(tokens[0]._type, TokenType::NUM);
    assert_eq!(tokens[0].lexeme, "123");
    assert!(matches!(&tokens[0].literal, Literal::NUMBER(s) if s == "123"));
    assert_eq!(tokens[1]._type, TokenType::EOF);
}

#[test]
fn fractional_numeral_keeps_its_value() {
    let (tokens, _) = scan("123.450");
    assert_eq!(tokens[0]._type, TokenType::NUM);
    assert_eq!(tokens[0].lexeme, "123.450");
    assert!(matches!(&tokens[0].literal, Literal::NUMBER(s) if s == "123.45"));
}

#[test]
fn numeral_literal_is_canonical_decimal_text() {
    let (tokens, _) = scan("007");
    assert!(matches!(&tokens[0].literal, Literal::NUMBER(s) if s == "7"));
    let (tokens, _) = scan("1.0");
    assert!(matches!(&tokens[0].literal, Literal::NUMBER(s) if s == "1"));
    let (tokens, _) = scan("0.500");
    assert!(matches!(&tokens[0].literal, Literal::NUMBER(s) if s == "0.5"));
    let (tokens, _) = scan("0.00");
    assert!(matches!(&tokens[0].literal, Literal::NUMBER(s) if s == "0"));
}

#[test]
fn comment_contributes_no_token() {
    let (tokens, errors) = scan("1 // comment\n2");
    assert_eq!(errors.len(), 0);
    assert_eq!(tokens.len(), 3);
    assert_eq!(tokens[0]._type, TokenType::NUM);
    assert!(matches!(&tokens[0].literal, Literal::NUMBER(s) if s == "1"));
    assert_eq!(tokens[0].line, 1);
    assert_eq!(tokens[1]._type, TokenType::NUM);
    assert!(matches!(&tokens[1].literal, Literal::NUMBER(s) if s == "2"));
    assert_eq!(tokens[1].line, 2);
    assert_eq!(tokens[2]._type, TokenType::EOF);
}

#[test]
fn unterminated_string_is_one_diagnostic_and_a_valid_sequence() {
    let (tokens, errors) = scan("\"abc");
    assert_eq!(errors.len(), 1);
    assert_eq!(errors[0], LexicalError::UnterminatedString { line: 1 });
    assert_eq!(tokens.len(), 1);
    assert_eq!(tokens[0]._type, TokenType::EOF);
}

#[test]
fn string_literal_payload_drops_the_quotes() {
    let (tokens, errors) = scan("\"hi there\"");
    assert_eq!(errors.len(), 0);
    assert_eq!(tokens[0]._type, TokenType::STR);
    assert_eq!(tokens[0].lexeme, "\"hi there\"");
    assert!(matches!(&tokens[0].literal, Literal::STRING(s) if s == "hi there"));
}

#[test]
fn multi_line_string_counts_its_newlines() {
    let (tokens, errors) = scan("\"a\nb\"");
    assert_eq!(errors.len(), 0);
    assert_eq!(tokens[0]._type, TokenType::STR);
    assert_eq!(tokens[0].line, 2);
    assert!(matches!(&tokens[0].literal, Literal::STRING(s) if s == "a\nb"));
    assert_eq!(tokens[1].line, 2);
}

#[test]
fn identifier_with_keyword_prefix_stays_whole() {
    let (tokens, errors) = scan("orchid");
    assert_eq!(errors.len(), 0);
    assert_eq!(tokens.len(), 2);
    assert_eq!(tokens[0]._type, TokenType::IDENTIFIER);
    assert_eq!(tokens[0].lexeme, "orchid");
    let (tokens, _) = scan("iffy");
    assert_eq!(tokens.len(), 2);
    assert_eq!(tokens[0]._type, TokenType::IDENTIFIER);
    assert_eq!(tokens[0].lexeme, "iffy");
}

#[test]
fn keywords_are_looked_up_whole_and_case_insensitively() {
    let (tokens, _) = scan("or");
    assert_eq!(tokens[0]._type, TokenType::OR);
    let (tokens, _) = scan("while");
    assert_eq!(tokens[0]._type, TokenType::WHILE);
    let (tokens, _) = scan("AND");
    assert_eq!(tokens[0]._type, TokenType::AND);
    assert_eq!(tokens[0].lexeme, "AND");
    let (tokens, _) = scan("nil true false");
    assert_eq!(tokens[0]._type, TokenType::NIL);
    assert_eq!(tokens[1]._type, TokenType::TRUE);
    assert_eq!(tokens[2]._type, TokenType::FALSE);
}

#[test]
fn look_ahead_consumes_only_on_match() {
    let (tokens, errors) = scan("!5");
    assert_eq!(errors.len(), 0);
    assert_eq!(tokens.len(), 3);
    assert_eq!(tokens[0]._type, TokenType::BANG);
    assert_eq!(tokens[0].lexeme, "!");
    assert_eq!(tokens[1]._type, TokenType::NUM);
    assert!(matches!(&tokens[1].literal, Literal::NUMBER(s) if s == "5"));
}

#[test]
fn one_and_two_character_operators() {
    let (tokens, errors) = scan("! != = == < <= > >= / *");
    assert_eq!(errors.len(), 0);
    let kinds: Vec<TokenType> = tokens.iter().map(|t| t._type).collect();
    assert_eq!(
        kinds,
        vec![
            TokenType::BANG,
            TokenType::BANG_EQUAL,
            TokenType::EQUAL,
            TokenType::EQUAL_EQUAL,
            TokenType::LESS,
            TokenType::LESS_EQUAL,
            TokenType::GREATER,
            TokenType::GREATER_EQUAL,
            TokenType::SLASH,
            TokenType::STAR,
            TokenType::EOF,
        ]
    );
}

#[test]
fn punctuation_tokens() {
    let (tokens, errors) = scan("(){},.-+;");
    assert_eq!(errors.len(), 0);
    let kinds: Vec<TokenType> = tokens.iter().map(|t| t._type).collect();
    assert_eq!(
        kinds,
        vec![
            TokenType::LEFT_PAREN,
            TokenType::RIGHT_PAREN,
            TokenType::LEFT_BRACE,
            TokenType::RIGHT_BRACE,
            TokenType::COMMA,
            TokenType::DOT,
            TokenType::MINUS,
            TokenType::PLUS,
            TokenType::SEMICOLON,
            TokenType::EOF,
        ]
    );
}

#[test]
fn unexpected_character_costs_one_diagnostic_and_one_character() {
    let (tokens, errors) = scan("@1");
    assert_eq!(errors.len(), 1);
    assert_eq!(errors[0], LexicalError::UnexpectedCharacter { line: 1, character: '@' });
    assert_eq!(tokens.len(), 2);
    assert_eq!(tokens[0]._type, TokenType::NUM);
    assert!(matches!(&tokens[0].literal, Literal::NUMBER(s) if s == "1"));
}

#[test]
fn diagnostics_carry_their_lines() {
    let (tokens, errors) = scan("@\n#");
    assert_eq!(errors.len(), 2);
    assert_eq!(errors[0], LexicalError::UnexpectedCharacter { line: 1, character: '@' });
    assert_eq!(errors[1], LexicalError::UnexpectedCharacter { line: 2, character: '#' });
    assert_eq!(tokens.len(), 1);
    assert_eq!(tokens[0]._type, TokenType::EOF);
    assert_eq!(tokens[0].line, 2);
}
