use rlox::lex::Lex;
use rlox::model::ScanErrorKind;
use rlox::scanner::{scan, ScanError};
use rlox::token::{Token, TokenType};

fn kinds(tokens: &[Token]) -> Vec<TokenType> {
    tokens.iter().map(|t| t.token_type).collect()
}

#[test]
fn blank_inputs_give_only_eof() {
    for source in ["", " ", "\n\n", "\t\r \n  "] {
        let (tokens, errors) = scan(source);
        assert_eq!(kinds(&tokens), vec![TokenType::EOF]);
        assert!(errors.is_empty());
    }
}

#[test]
fn eof_is_last_and_only_empty_lexeme() {
    let (tokens, _) = scan("var x = 1.5; // note\nprint x;");
    let last = tokens.last().unwrap();
    assert_eq!(last.token_type, TokenType::EOF);
    assert_eq!(last.lexeme, "");
    assert_eq!(last.line, 2);
    for t in &tokens[..tokens.len() - 1] {
        assert!(!t.lexeme.is_empty());
        assert_ne!(t.token_type, TokenType::EOF);
    }
}

#[test]
fn lexemes_rebuild_significant_text() {
    let (tokens, errors) = scan("a = b+1 ; // tail\n\"x y\" >= 2.5");
    assert!(errors.is_empty());
    let joined: String = tokens.iter().map(|t| t.lexeme.as_str()).collect();
    assert_eq!(joined, "a=b+1;\"x y\">=2.5");
}

#[test]
fn string_literal_has_no_quotes() {
    let (tokens, errors) = scan("{\"This is just a text inside of string\"}");
    assert!(errors.is_empty());
    assert_eq!(
        kinds(&tokens),
        vec![TokenType::LeftBrace, TokenType::String, TokenType::RightBrace, TokenType::EOF]
    );
    assert_eq!(tokens[1].literal, "This is just a text inside of string");
    assert_eq!(tokens[1].lexeme, "\"This is just a text inside of string\"");
}

#[test]
fn operators_are_disambiguated() {
    let (tokens, _) = scan("! != = == < <= > >=");
    assert_eq!(
        kinds(&tokens),
        vec![
            TokenType::Bang,
            TokenType::BangEqual,
            TokenType::Equal,
            TokenType::EqualEqual,
            TokenType::Less,
            TokenType::LessEqual,
            TokenType::Greater,
            TokenType::GreaterEqual,
            TokenType::EOF,
        ]
    );
}

#[test]
fn keywords_match_whole_words() {
    let (tokens, _) = scan("class while if fun");
    assert_eq!(
        kinds(&tokens),
        vec![TokenType::Class, TokenType::While, TokenType::If, TokenType::Fun, TokenType::EOF]
    );
    let (tokens, _) = scan("classify");
    assert_eq!(kinds(&tokens), vec![TokenType::Identifier, TokenType::EOF]);
    assert_eq!(tokens[0].lexeme, "classify");
    assert_eq!(tokens[0].literal, "");
}

#[test]
fn every_reserved_word_is_recognised() {
    let (tokens, _) =
        scan("and class else false for fun if nil or print return super this true var while _x9");
    assert_eq!(
        kinds(&tokens),
        vec![
            TokenType::And,
            TokenType::Class,
            TokenType::Else,
            TokenType::False,
            TokenType::For,
            TokenType::Fun,
            TokenType::If,
            TokenType::Nil,
            TokenType::Or,
            TokenType::Print,
            TokenType::Return,
            TokenType::Super,
            TokenType::This,
            TokenType::True,
            TokenType::Var,
            TokenType::While,
            TokenType::Identifier,
            TokenType::EOF,
        ]
    );
}

#[test]
fn number_literals() {
    let (tokens, _) = scan("42");
    assert_eq!(kinds(&tokens), vec![TokenType::Number, TokenType::EOF]);
    assert_eq!(tokens[0].literal, "42");
    let (tokens, _) = scan("3.14");
    assert_eq!(kinds(&tokens), vec![TokenType::Number, TokenType::EOF]);
    assert_eq!(tokens[0].literal, "3.14");
    let (tokens, _) = scan("3.");
    assert_eq!(kinds(&tokens), vec![TokenType::Number, TokenType::Dot, TokenType::EOF]);
    assert_eq!(tokens[0].literal, "3");
    assert_eq!(tokens[1].lexeme, ".");
}

#[test]
fn unterminated_string_is_reported() {
    let (tokens, errors) = scan("x\n\"abc\ndef");
    assert_eq!(kinds(&tokens), vec![TokenType::Identifier, TokenType::EOF]);
    assert_eq!(
        errors,
        vec![ScanError { line: 2, kind: ScanErrorKind::UnterminatedString }]
    );
    assert_eq!(tokens[1].line, 3);
    assert_eq!(errors[0].message(), "Unterminated string.");
}

#[test]
fn unexpected_character_is_reported_and_skipped() {
    let (tokens, errors) = scan("a @ b\n#");
    assert_eq!(
        kinds(&tokens),
        vec![TokenType::Identifier, TokenType::Identifier, TokenType::EOF]
    );
    assert_eq!(
        errors,
        vec![
            ScanError { line: 1, kind: ScanErrorKind::UnexpectedCharacter('@') },
            ScanError { line: 2, kind: ScanErrorKind::UnexpectedCharacter('#') },
        ]
    );
    assert_eq!(errors[0].message(), "Unexpected character.");
}

#[test]
fn scanning_twice_gives_the_same_result() {
    let source = "fun f(a) { return a * 2; } // done\n\"s\" 1.5 @";
    let first = scan(source);
    let second = scan(source);
    assert_eq!(first, second);
}

#[test]
fn comments_and_slash() {
    let (tokens, _) = scan("a / b // c d e\n/");
    assert_eq!(
        kinds(&tokens),
        vec![
            TokenType::Identifier,
            TokenType::Slash,
            TokenType::Identifier,
            TokenType::Slash,
            TokenType::EOF,
        ]
    );
    assert_eq!(tokens[3].line, 2);
}

#[test]
fn multi_line_string_keeps_its_start_line() {
    let (tokens, errors) = scan("\"a\nb\" c");
    assert!(errors.is_empty());
    assert_eq!(tokens[0].token_type, TokenType::String);
    assert_eq!(tokens[0].literal, "a\nb");
    assert_eq!(tokens[0].line, 1);
    assert_eq!(tokens[1].line, 2);
    assert_eq!(tokens[2].line, 2);
}

#[test]
fn non_ascii_text_inside_strings() {
    let (tokens, errors) = scan("\"héllo\" é");
    assert_eq!(tokens[0].literal, "héllo");
    assert_eq!(
        errors,
        vec![ScanError { line: 1, kind: ScanErrorKind::UnexpectedCharacter('é') }]
    );
}

#[test]
fn lex_latches_errors() {
    let mut lex = Lex::new();
    let (tokens, errors) = lex.scan_tokens("1 + 2");
    assert_eq!(tokens.len(), 4);
    assert!(errors.is_empty());
    assert!(!lex.had_error);
    let (_, errors) = lex.scan_tokens("$");
    assert_eq!(errors.len(), 1);
    assert!(lex.had_error);
    let (_, errors) = lex.scan_tokens("ok");
    assert!(errors.is_empty());
    assert!(lex.had_error);
}

#[test]
fn scanner_appends_to_given_tokens() {
    let first = Token::new(TokenType::Nil, "nil".to_string(), String::new(), 7);
    let mut scanner = rlox::scanner::Scanner::new("+".to_string(), vec![first.clone()]);
    scanner.scan_tokens();
    assert_eq!(scanner.tokens[0], first);
    assert_eq!(kinds(&scanner.tokens), vec![TokenType::Nil, TokenType::Plus, TokenType::EOF]);
}
