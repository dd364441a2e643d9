use vstd::prelude::*;

verus! {

/// The closed set of token kinds of the language.
#[derive(Debug, Clone, Copy, PartialEq, Eq, Structural)]
pub enum TokenType {
    // single-character punctuation
    LeftParen,
    RightParen,
    LeftBrace,
    RightBrace,
    Comma,
    Dot,
    Minus,
    Plus,
    Semicolon,
    Slash,
    Star,
    // one- or two-character operators
    Bang,
    BangEqual,
    Equal,
    EqualEqual,
    Greater,
    GreaterEqual,
    Less,
    LessEqual,
    // literals
    Identifier,
    String,
    Number,
    // keywords
    And,
    Class,
    Else,
    False,
    Fun,
    For,
    If,
    Nil,
    Or,
    Print,
    Return,
    Super,
    This,
    True,
    Var,
    While,
    EOF,
}

/// A classified unit of source text.
#[derive(Debug, Clone, PartialEq)]
pub struct Token {
    pub token_type: TokenType,
    /// The exact source text that produced the token.
    pub lexeme: String,
    /// The decoded literal value, empty for tokens that carry none.
    pub literal: String,
    /// The line on which the token starts, counting from one.
    pub line: usize,
}

/// The mathematical value of a token: kind, lexeme, literal and line.
pub type TokenModel = (TokenType, Seq<char>, Seq<char>, int);

impl Token {
    pub open spec fn model(&self) -> TokenModel {
        (self.token_type, self.lexeme@, self.literal@, self.line as int)
    }

    pub fn new(token_type: TokenType, lexeme: String, literal: String, line: usize) -> (r: Token)
        ensures
            r.token_type == token_type,
            r.lexeme == lexeme,
            r.literal == literal,
            r.line == line,
    {
        Token { token_type, lexeme, literal, line }
    }
}

} // verus!
