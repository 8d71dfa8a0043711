//! The scanner: token categories, lexemes, line counting, comment
//! skipping, and behaviour at the end of the input.

use lox_core::scanner::Scanner;
use lox_core::scanner::Token;
use lox_core::scanner::TokenType;

fn scan_all(source: &str) -> Vec<Token> {
    let mut scanner = Scanner::new(source.to_string());
    let mut tokens = Vec::new();
    loop {
        let token = scanner.scan_token();
        let done = token.get_type() == TokenType::EOF;
        tokens.push(token);
        if done {
            return tokens;
        }
    }
}

fn types(source: &str) -> Vec<TokenType> {
    scan_all(source).iter().map(|t| t.get_type()).collect()
}

#[test]
fn arithmetic_tokens() {
    assert_eq!(
        types("1 + 2 * (3 - 4) / 5"),
        vec![
            TokenType::Number,
            TokenType::Plus,
            TokenType::Number,
            TokenType::Star,
            TokenType::LeftParen,
            TokenType::Number,
            TokenType::Minus,
            TokenType::Number,
            TokenType::RightParen,
            TokenType::Slash,
            TokenType::Number,
            TokenType::EOF,
        ]
    );
}

#[test]
fn two_character_operators_take_longest_match() {
    assert_eq!(
        types("! != = == < <= > >="),
        vec![
            TokenType::Bang,
            TokenType::BangEqual,
            TokenType::Equal,
            TokenType::EqualEqual,
            TokenType::Less,
            TokenType::LessEqual,
            TokenType::Greater,
            TokenType::GreaterEqual,
            TokenType::EOF,
        ]
    );
}

#[test]
fn number_lexemes_allow_one_decimal_point() {
    let tokens = scan_all("12.5 7. .5");
    assert_eq!(tokens[0].get_type(), TokenType::Number);
    assert_eq!(tokens[0].get_lexeme(), "12.5");
    // "7." is a number followed by a dot: the point needs a digit after it.
    assert_eq!(tokens[1].get_type(), TokenType::Number);
    assert_eq!(tokens[1].get_lexeme(), "7");
    assert_eq!(tokens[2].get_type(), TokenType::Dot);
    assert_eq!(tokens[3].get_type(), TokenType::Dot);
    assert_eq!(tokens[4].get_type(), TokenType::Number);
    assert_eq!(tokens[4].get_lexeme(), "5");
}

#[test]
fn keywords_and_identifiers() {
    let tokens = scan_all("and clazz nil while whilst _x");
    assert_eq!(tokens[0].get_type(), TokenType::And);
    assert_eq!(tokens[1].get_type(), TokenType::Identifier);
    assert_eq!(tokens[1].get_lexeme(), "clazz");
    assert_eq!(tokens[2].get_type(), TokenType::Nil);
    assert_eq!(tokens[3].get_type(), TokenType::While);
    assert_eq!(tokens[4].get_type(), TokenType::Identifier);
    assert_eq!(tokens[5].get_type(), TokenType::Identifier);
}

#[test]
fn all_keywords_are_recognized() {
    assert_eq!(
        types("and class else false for fun if nil or print return super this true var while"),
        vec![
            TokenType::And,
            TokenType::Class,
            TokenType::Else,
            TokenType::False,
            TokenType::For,
            TokenType::Fun,
            TokenType::If,
            TokenType::Nil,
            TokenType::Or,
            TokenType::Print,
            TokenType::Return,
            TokenType::Super,
            TokenType::This,
            TokenType::True,
            TokenType::Var,
            TokenType::While,
            TokenType::EOF,
        ]
    );
}

#[test]
fn string_literals_keep_their_quotes() {
    let tokens = scan_all("\"hello\" 1");
    assert_eq!(tokens[0].get_type(), TokenType::Str);
    assert_eq!(tokens[0].get_lexeme(), "\"hello\"");
    assert_eq!(tokens[1].get_type(), TokenType::Number);
}

#[test]
fn unterminated_string_is_an_error_token() {
    let tokens = scan_all("\"abc");
    assert_eq!(tokens[0].get_type(), TokenType::Error);
    assert_eq!(tokens[0].get_lexeme(), "Unterminated string.");
}

#[test]
fn strings_track_embedded_newlines() {
    let tokens = scan_all("\"a\nb\" 1");
    assert_eq!(tokens[0].get_type(), TokenType::Str);
    assert_eq!(tokens[0].get_line(), 2);
    assert_eq!(tokens[1].get_line(), 2);
}

#[test]
fn unexpected_character_is_an_error_token() {
    let tokens = scan_all("1 @ 2");
    assert_eq!(tokens[0].get_type(), TokenType::Number);
    assert_eq!(tokens[1].get_type(), TokenType::Error);
    assert_eq!(tokens[1].get_lexeme(), "Unexpected character.");
    assert_eq!(tokens[2].get_type(), TokenType::Number);
}

#[test]
fn line_and_block_comments_are_skipped() {
    assert_eq!(
        types("1 // to the end of the line\n+ /* in the middle */ 2"),
        vec![TokenType::Number, TokenType::Plus, TokenType::Number, TokenType::EOF]
    );
}

#[test]
fn line_numbers_advance_on_newlines() {
    let tokens = scan_all("1\n2\n\n3");
    assert_eq!(tokens[0].get_line(), 1);
    assert_eq!(tokens[1].get_line(), 2);
    assert_eq!(tokens[2].get_line(), 4);
}

#[test]
fn block_comments_count_their_newlines() {
    let tokens = scan_all("/* one\ntwo */ 9");
    assert_eq!(tokens[0].get_type(), TokenType::Number);
    assert_eq!(tokens[0].get_line(), 2);
}

#[test]
fn end_of_input_repeats_forever() {
    let mut scanner = Scanner::new("x".to_string());
    assert_eq!(scanner.scan_token().get_type(), TokenType::Identifier);
    for _ in 0..3 {
        let token = scanner.scan_token();
        assert_eq!(token.get_type(), TokenType::EOF);
        assert_eq!(token.get_lexeme(), "");
    }
}

#[test]
fn embedded_nul_terminates_scanning() {
    let mut scanner = Scanner::new("1\u{0}2".to_string());
    assert_eq!(scanner.scan_token().get_type(), TokenType::Number);
    assert_eq!(scanner.scan_token().get_type(), TokenType::EOF);
}
