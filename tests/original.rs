use rlox::lex::Lex;
use rlox::scanner::Scanner;
use rlox::token::{Token, TokenType};

#[test]
fn should_create_empty_lex() {
    let lex = Lex::new();
    assert_eq!(
        lex.had_error, false,
        "New lex should be without an errors, but was {:?}",
        lex
    );
}

#[test]
fn should_change_error_state_after_err_logging() {
    let mut lex = Lex::new();
    lex.lex_error(0, "some error");
    assert_eq!(
        lex.had_error, true,
        "Error state should be true but was {:?}",
        lex
    );
}

#[test]
fn should_scan_identifiers_with_keywords() {
    let expected_len = 13;
    let source = r#"
        while (true) {
            identifier = identifier + 1;
        }
    "#;
    let mut scanner = Scanner::new(source.to_string(), vec![]);
    scanner.scan_tokens();
    assert_eq!(
        scanner.tokens.len(),
        expected_len,
        "{:?} should have len {} but was {}",
        scanner.tokens,
        expected_len,
        scanner.tokens.len()
    );
}

#[test]
fn should_scan_some_keywords() {
    let expected_len = 5;
    let source = "class while if fun";
    let mut scanner = Scanner::new(source.to_string(), vec![]);
    scanner.scan_tokens();
    assert_eq!(
        scanner.tokens.len(),
        expected_len,
        "{:?} should have len {} but was {}",
        scanner.tokens,
        expected_len,
        scanner.tokens.len()
    );
}

#[test]
fn should_read_floating_numbers() {
    let source = "1.23 2.34 3.45 4.56";
    let expected_len = 5;
    let mut scanner = Scanner::new(source.to_string(), vec![]);
    scanner.scan_tokens();
    assert_eq!(
        scanner.tokens.len(),
        expected_len,
        "{:?} should have len {} but was {}",
        scanner.tokens,
        expected_len,
        scanner.tokens.len()
    );
}

#[test]
fn should_read_int_numbers() {
    let source = "1 2 3 4";
    let expected_len = 5;
    let mut scanner = Scanner::new(source.to_string(), vec![]);
    scanner.scan_tokens();
    assert_eq!(
        scanner.tokens.len(),
        expected_len,
        "{:?} should have len {} but was {}",
        scanner.tokens,
        expected_len,
        scanner.tokens.len()
    );
}

#[test]
fn should_get_string_value() {
    let expected = "This is just a text inside of string";
    let source = "{\"This is just a text inside of string\"}";
    let expected_len = 4;
    let string_position = 1;
    let mut scanner: Scanner = Scanner::new(source.to_string(), vec![]);
    scanner.scan_tokens();
    assert_eq!(
        scanner.tokens.len(),
        expected_len,
        "{:?} should contain each of {source}",
        scanner.tokens
    );
    assert_eq!(
        scanner.tokens.get(string_position).unwrap().literal,
        expected
    );
}

#[test]
fn should_ignore_whitespaces() {
    let expected_len = 1;
    let source: &str = "\n\r\n\t ";
    let mut scanner: Scanner = Scanner::new(source.to_string(), vec![]);
    scanner.scan_tokens();
    assert_eq!(
        scanner.tokens.len(),
        expected_len,
        "{:?} should contain only EOF",
        scanner.tokens
    );
}

#[test]
fn should_add_valid_tokens() {
    let expected_len = 22;
    let source: &str = "{} () + - / * < > <= >= != == = != ! ; * , .";
    let mut scanner: Scanner = Scanner::new(source.to_string(), vec![]);
    scanner.scan_tokens();
    assert_eq!(
        scanner.tokens.len(),
        expected_len,
        "{:?} should contain each of {source}",
        scanner.tokens
    );
}

#[test]
fn should_not_be_at_the_end() {
    let scanner = Scanner::new("aaa".to_string(), vec![]);
    assert!(!scanner.is_at_end());
}

#[test]
fn should_be_at_the_end() {
    let mut scanner = Scanner::new("aaa".to_string(), vec![]);
    scanner.current = 5;
    assert!(scanner.is_at_end());
}

#[test]
fn should_create_scanner() {
    let scan = Scanner::new("meh".to_string(), vec![]);
    assert!(scan.tokens.is_empty(), "Should be empty {:?}", scan);
    assert_eq!(scan.source, "meh");
}

#[test]
fn should_create_empty_token() {
    let token = Token::new(TokenType::And, "aaa".into(), "bbb".into(), 10);
    assert_eq!(token.token_type, TokenType::And);
    assert_eq!(token.lexeme, "aaa");
    assert_eq!(token.literal, "bbb");
    assert_eq!(token.line, 10);
}
