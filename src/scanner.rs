use vstd::prelude::*;
use vstd::string::*;
use crate::model::{
    char_at, digits_end, errors_from, find_from, is_alpha, is_alpha_numeric, is_digit, keyword_type,
    eof_token, lemma_step_end, lemma_line_step, lemma_line_bound,
    lemma_word_end, lemma_find_from, line_at, number_end, opt_seq, step_end, step_error, step_token, tokens_from, word_end,
    scan_errors_model, scan_tokens_model, ErrorModel, ScanErrorKind,
};
use crate::token::{Token, TokenModel, TokenType};

verus! {

/// One lexical error: where it was met and what it is.
#[derive(Debug, Clone, Copy, PartialEq, Eq, Structural)]
pub struct ScanError {
    /// The line, counting from one, on which the offending lexeme starts.
    pub line: usize,
    pub kind: ScanErrorKind,
}

impl ScanError {
    pub open spec fn model(&self) -> ErrorModel {
        (self.kind, self.line as int)
    }

    /// A human-readable description of the error.
    pub fn message(&self) -> (r: String)
        ensures
            r@ == error_message(self.kind),
    {
        match self.kind {
            ScanErrorKind::UnterminatedString => "Unterminated string.".to_owned(),
            ScanErrorKind::UnexpectedCharacter(_) => "Unexpected character.".to_owned(),
        }
    }
}

pub open spec fn error_message(k: ScanErrorKind) -> Seq<char> {
    match k {
        ScanErrorKind::UnterminatedString => "Unterminated string."@,
        ScanErrorKind::UnexpectedCharacter(_) => "Unexpected character."@,
    }
}

/// Scans a whole source text: its tokens, ending in the end-of-input token,
/// and every lexical error met on the way.
pub fn scan(source: &str) -> (r: (Vec<Token>, Vec<ScanError>))
    ensures
        token_models(r.0@) == scan_tokens_model(source@),
        error_models(r.1@) == scan_errors_model(source@),
{
    let mut scanner = Scanner::new(source.to_owned(), Vec::new());
    scanner.scan_tokens();
    proof {
        assert(token_models(Seq::<Token>::empty()) =~= Seq::<TokenModel>::empty());
        assert(error_models(Seq::<ScanError>::empty()) =~= Seq::<ErrorModel>::empty());
        assert(token_models(scanner.tokens@) =~= scan_tokens_model(source@));
        assert(error_models(scanner.errors@) =~= scan_errors_model(source@));
    }
    (scanner.tokens, scanner.errors)
}

pub open spec fn token_models(v: Seq<Token>) -> Seq<TokenModel> {
    v.map_values(|t: Token| t.model())
}

pub open spec fn error_models(v: Seq<ScanError>) -> Seq<ErrorModel> {
    v.map_values(|e: ScanError| e.model())
}

/// A single-use scanner over one source text.
#[derive(Debug)]
pub struct Scanner {
    pub source: String,
    pub tokens: Vec<Token>,
    pub errors: Vec<ScanError>,
    /// Index (in characters) of the first character of the current lexeme.
    pub start: usize,
    /// Index (in characters) of the next unread character.
    pub current: usize,
    /// The line of `current`, counting from one.
    pub line: usize,
    /// The characters of `source`, decoded once.
    pub chars: Vec<char>,
}

impl Scanner {
    pub open spec fn text(&self) -> Seq<char> {
        self.chars@
    }

    /// The cursor lies inside the decoded source.
    pub open spec fn wf(&self) -> bool {
        &&& self.chars@ == self.source@
        &&& self.start <= self.current <= self.chars.len()
        &&& self.chars.len() < usize::MAX
    }

    /// The line counter agrees with the cursor.
    pub open spec fn line_ok(&self) -> bool {
        self.line == line_at(self.chars@, self.current as int)
    }

    /// Everything but the cursor's `current` and `line` is as in `other`.
    pub open spec fn same_buffers(&self, other: &Scanner) -> bool {
        &&& self.source == other.source
        &&& self.chars == other.chars
        &&& self.tokens == other.tokens
        &&& self.errors == other.errors
        &&& self.start == other.start
    }

    pub fn new(source: String, tokens: Vec<Token>) -> (r: Scanner)
        ensures
            r.wf(),
            r.line_ok(),
            r.source == source,
            r.tokens == tokens,
            r.errors@.len() == 0,
            r.start == 0,
            r.current == 0,
            r.line == 1,
    {
        let mut chars: Vec<char> = Vec::new();
        for c in it: source.as_str().chars()
            invariant
                chars@ == it.seq().take(it.index() as int),
        {
            chars.push(c);
        }
        // The characters occupy four bytes each, and their size fits in a usize.
        let bytes: usize = core::mem::size_of_val(chars.as_slice());
        proof {
            broadcast use vstd::layout::layout_of_slices, vstd::layout::layout_of_primitives;

            assert(bytes == chars@.len() * 4);
            assert(chars@ =~= source@);
        }
        Scanner { source, tokens, errors: Vec::new(), start: 0, current: 0, line: 1, chars }
    }

    pub fn is_at_end(&self) -> (r: bool)
        ensures
            r == (self.current >= self.chars.len()),
    {
        self.current >= self.chars.len()
    }

    /// Consumes and returns the next character.
    pub fn advance(&mut self) -> (c: char)
        requires
            old(self).wf(),
            old(self).current < old(self).chars.len(),
        ensures
            final(self).wf(),
            final(self).same_buffers(old(self)),
            final(self).line == old(self).line,
            final(self).current == old(self).current + 1,
            c == old(self).chars@[old(self).current as int],
    {
        self.current = self.current + 1;
        self.chars[self.current - 1]
    }

    /// Consumes the next character only when it is `expected`.
    pub fn contains(&mut self, expected: char) -> (r: bool)
        requires
            old(self).wf(),
        ensures
            final(self).wf(),
            final(self).same_buffers(old(self)),
            final(self).line == old(self).line,
            r == (char_at(old(self).chars@, old(self).current as int) == expected
                && old(self).current < old(self).chars.len()),
            final(self).current == old(self).current + if r { 1int } else { 0int },
    {
        if self.is_at_end() {
            return false;
        }
        if self.chars[self.current] != expected {
            return false;
        }
        self.current = self.current + 1;
        true
    }

    /// The character after the next one, or the null character.
    pub fn peek_next(&self) -> (c: char)
        requires
            self.wf(),
        ensures
            c == char_at(self.chars@, self.current + 1),
    {
        if self.current + 1 >= self.chars.len() {
            return '\0';
        }
        self.chars[self.current + 1]
    }

    /// The next character, or the null character at the end of input.
    pub fn peek(&self) -> (c: char)
        requires
            self.wf(),
        ensures
            c == char_at(self.chars@, self.current as int),
    {
        if self.is_at_end() {
            '\0'
        } else {
            self.chars[self.current]
        }
    }

    pub fn is_alpha_numeric(c: char) -> (r: bool)
        ensures
            r == is_alpha_numeric(c),
    {
        Self::is_alpha(c) || Self::is_digit(c)
    }

    pub fn is_alpha(c: char) -> (r: bool)
        ensures
            r == is_alpha(c),
    {
        (c >= 'a' && c <= 'z') || (c >= 'A' && c <= 'Z') || c == '_'
    }

    pub fn is_digit(c: char) -> (r: bool)
        ensures
            r == is_digit(c),
    {
        c >= '0' && c <= '9'
    }

    /// The text of the current lexeme, `[start, current)`.
    fn lexeme(&self) -> (r: String)
        requires
            self.wf(),
        ensures
            r@ == self.chars@.subrange(self.start as int, self.current as int),
    {
        self.source.as_str().substring_char(self.start, self.current).to_owned()
    }

    /// Appends a token for the current lexeme with the given literal.
    fn add_literal_token(&mut self, token_type: TokenType, literal: String, line: usize)
        requires
            old(self).wf(),
        ensures
            final(self).wf(),
            final(self).source == old(self).source,
            final(self).chars == old(self).chars,
            final(self).errors == old(self).errors,
            final(self).start == old(self).start,
            final(self).current == old(self).current,
            final(self).line == old(self).line,
            token_models(final(self).tokens@) == token_models(old(self).tokens@).push(
                (
                    token_type,
                    old(self).chars@.subrange(old(self).start as int, old(self).current as int),
                    literal@,
                    line as int,
                ),
            ),
    {
        let text = self.lexeme();
        let token = Token::new(token_type, text, literal, line);
        self.tokens.push(token);
        proof {
            assert(token_models(self.tokens@) =~= token_models(old(self).tokens@).push(token.model()));
        }
    }

    /// Appends a token without literal for the current lexeme.
    fn add_token(&mut self, token_type: TokenType)
        requires
            old(self).wf(),
        ensures
            final(self).wf(),
            final(self).source == old(self).source,
            final(self).chars == old(self).chars,
            final(self).errors == old(self).errors,
            final(self).start == old(self).start,
            final(self).current == old(self).current,
            final(self).line == old(self).line,
            token_models(final(self).tokens@) == token_models(old(self).tokens@).push(
                (
                    token_type,
                    old(self).chars@.subrange(old(self).start as int, old(self).current as int),
                    Seq::<char>::empty(),
                    old(self).line as int,
                ),
            ),
    {
        let line = self.line;
        self.add_literal_token(token_type, String::new(), line);
    }

    fn add_error(&mut self, kind: ScanErrorKind, line: usize)
        requires
            old(self).wf(),
        ensures
            final(self).wf(),
            final(self).source == old(self).source,
            final(self).chars == old(self).chars,
            final(self).tokens == old(self).tokens,
            final(self).start == old(self).start,
            final(self).current == old(self).current,
            final(self).line == old(self).line,
            error_models(final(self).errors@) == error_models(old(self).errors@).push(
                (kind, line as int),
            ),
    {
        let e = ScanError { line, kind };
        self.errors.push(e);
        proof {
            assert(error_models(self.errors@) =~= error_models(old(self).errors@).push(e.model()));
        }
    }

    /// Whether the current lexeme is exactly `w`.
    fn lexeme_is(&self, w: &[char]) -> (r: bool)
        requires
            self.wf(),
        ensures
            r == (self.chars@.subrange(self.start as int, self.current as int) == w@),
    {
        let ghost lex = self.chars@.subrange(self.start as int, self.current as int);
        if self.current - self.start != w.len() {
            assert(lex.len() != w@.len());
            return false;
        }
        let mut k: usize = 0;
        while k < w.len()
            invariant
                self.wf(),
                self.current - self.start == w.len(),
                lex == self.chars@.subrange(self.start as int, self.current as int),
                k <= w.len(),
                forall|j: int| 0 <= j < k ==> lex[j] == w@[j],
            decreases w.len() - k,
        {
            if self.chars[self.start + k] != w[k] {
                assert(lex[k as int] != w@[k as int]);
                return false;
            }
            k = k + 1;
        }
        assert(lex =~= w@);
        true
    }

    /// The kind of the current word: a reserved word's own kind, else `Identifier`.
    fn keyword(&self) -> (t: TokenType)
        requires
            self.wf(),
        ensures
            t == keyword_type(self.chars@.subrange(self.start as int, self.current as int)),
    {
        if self.lexeme_is(&['a', 'n', 'd']) {
            TokenType::And
        } else if self.lexeme_is(&['c', 'l', 'a', 's', 's']) {
            TokenType::Class
        } else if self.lexeme_is(&['e', 'l', 's', 'e']) {
            TokenType::Else
        } else if self.lexeme_is(&['f', 'a', 'l', 's', 'e']) {
            TokenType::False
        } else if self.lexeme_is(&['f', 'o', 'r']) {
            TokenType::For
        } else if self.lexeme_is(&['f', 'u', 'n']) {
            TokenType::Fun
        } else if self.lexeme_is(&['i', 'f']) {
            TokenType::If
        } else if self.lexeme_is(&['n', 'i', 'l']) {
            TokenType::Nil
        } else if self.lexeme_is(&['o', 'r']) {
            TokenType::Or
        } else if self.lexeme_is(&['p', 'r', 'i', 'n', 't']) {
            TokenType::Print
        } else if self.lexeme_is(&['r', 'e', 't', 'u', 'r', 'n']) {
            TokenType::Return
        } else if self.lexeme_is(&['s', 'u', 'p', 'e', 'r']) {
            TokenType::Super
        } else if self.lexeme_is(&['t', 'h', 'i', 's']) {
            TokenType::This
        } else if self.lexeme_is(&['t', 'r', 'u', 'e']) {
            TokenType::True
        } else if self.lexeme_is(&['v', 'a', 'r']) {
            TokenType::Var
        } else if self.lexeme_is(&['w', 'h', 'i', 'l', 'e']) {
            TokenType::While
        } else {
            TokenType::Identifier
        }
    }

    /// Scans the rest of a number whose first digit was just consumed.
    pub fn number_advice(&mut self)
        requires
            old(self).wf(),
            old(self).line_ok(),
            old(self).current == old(self).start + 1,
            is_digit(old(self).chars@[old(self).start as int]),
        ensures
            final(self).wf(),
            final(self).line_ok(),
            final(self).source == old(self).source,
            final(self).chars == old(self).chars,
            final(self).errors == old(self).errors,
            final(self).start == old(self).start,
            final(self).line == old(self).line,
            final(self).current == number_end(old(self).chars@, old(self).start + 1),
            token_models(final(self).tokens@) == token_models(old(self).tokens@).push(
                (
                    TokenType::Number,
                    old(self).chars@.subrange(old(self).start as int, final(self).current as int),
                    old(self).chars@.subrange(old(self).start as int, final(self).current as int),
                    old(self).line as int,
                ),
            ),
    {
        let ghost s = self.chars@;
        let ghost first = self.start + 1;
        while Self::is_digit(self.peek())
            invariant
                self.wf(),
                self.line_ok(),
                self.chars@ == s,
                self.chars == old(self).chars,
                self.source == old(self).source,
                self.tokens == old(self).tokens,
                self.errors == old(self).errors,
                self.start == old(self).start,
                self.line == old(self).line,
                first <= self.current,
                digits_end(s, self.current as int) == digits_end(s, first),
            decreases s.len() - self.current,
        {
            proof {
                lemma_line_step(s, self.current as int);
            }
            self.advance();
        }
        let ghost e = self.current as int;
        if self.peek() == '.' && Self::is_digit(self.peek_next()) {
            proof {
                lemma_line_step(s, self.current as int);
            }
            self.advance();
            while Self::is_digit(self.peek())
                invariant
                    self.wf(),
                    self.line_ok(),
                    self.chars@ == s,
                    self.chars == old(self).chars,
                    self.source == old(self).source,
                    self.tokens == old(self).tokens,
                    self.errors == old(self).errors,
                    self.start == old(self).start,
                    self.line == old(self).line,
                    e + 1 <= self.current,
                    digits_end(s, self.current as int) == digits_end(s, e + 1),
                decreases s.len() - self.current,
            {
                proof {
                    lemma_line_step(s, self.current as int);
                }
                self.advance();
            }
        }
        let value = self.lexeme();
        let line = self.line;
        self.add_literal_token(TokenType::Number, value, line);
    }

    /// Scans the rest of a word whose first letter was just consumed, and
    /// tells a reserved word from an identifier.
    pub fn identifier_advice(&mut self)
        requires
            old(self).wf(),
            old(self).line_ok(),
            old(self).current == old(self).start + 1,
            is_alpha(old(self).chars@[old(self).start as int]),
        ensures
            final(self).wf(),
            final(self).line_ok(),
            final(self).source == old(self).source,
            final(self).chars == old(self).chars,
            final(self).errors == old(self).errors,
            final(self).start == old(self).start,
            final(self).line == old(self).line,
            final(self).current == word_end(old(self).chars@, old(self).start + 1),
            token_models(final(self).tokens@) == token_models(old(self).tokens@).push(
                (
                    keyword_type(
                        old(self).chars@.subrange(old(self).start as int, final(self).current as int),
                    ),
                    old(self).chars@.subrange(old(self).start as int, final(self).current as int),
                    Seq::<char>::empty(),
                    old(self).line as int,
                ),
            ),
    {
        let ghost s = self.chars@;
        let ghost first = self.start + 1;
        while Self::is_alpha_numeric(self.peek())
            invariant
                self.wf(),
                self.line_ok(),
                self.chars@ == s,
                self.chars == old(self).chars,
                self.source == old(self).source,
                self.tokens == old(self).tokens,
                self.errors == old(self).errors,
                self.start == old(self).start,
                self.line == old(self).line,
                first <= self.current,
                word_end(s, self.current as int) == word_end(s, first),
            decreases s.len() - self.current,
        {
            proof {
                lemma_line_step(s, self.current as int);
            }
            self.advance();
        }
        let token = self.keyword();
        self.add_token(token);
    }

    /// Scans the rest of a string whose opening quote was just consumed. A
    /// string without its closing quote is reported on the line it starts on.
    pub fn string_advance(&mut self)
        requires
            old(self).wf(),
            old(self).line_ok(),
            old(self).current == old(self).start + 1,
            old(self).chars@[old(self).start as int] == '"',
        ensures
            final(self).wf(),
            final(self).line_ok(),
            final(self).source == old(self).source,
            final(self).chars == old(self).chars,
            final(self).start == old(self).start,
            final(self).current == step_end(old(self).chars@, old(self).start as int),
            token_models(final(self).tokens@) == token_models(old(self).tokens@) + opt_seq(
                step_token(old(self).chars@, old(self).start as int),
            ),
            error_models(final(self).errors@) == error_models(old(self).errors@) + opt_seq(
                match step_error(old(self).chars@, old(self).start as int) {
                    Some(k) => Some((k, line_at(old(self).chars@, old(self).start as int))),
                    None => None,
                },
            ),
    {
        let ghost s = self.chars@;
        let ghost i = self.start as int;
        let start_line = self.line;
        proof {
            lemma_line_step(s, i);
            lemma_find_from(s, i + 1, '"');
        }
        while self.peek() != '"' && !self.is_at_end()
            invariant
                self.wf(),
                self.line_ok(),
                self.chars@ == s,
                self.chars == old(self).chars,
                self.source == old(self).source,
                self.tokens == old(self).tokens,
                self.errors == old(self).errors,
                self.start == old(self).start,
                i + 1 <= self.current,
                find_from(s, self.current as int, '"') == find_from(s, i + 1, '"'),
            decreases s.len() - self.current,
        {
            proof {
                lemma_line_step(s, self.current as int);
                lemma_line_bound(s, self.current as int);
            }
            if self.peek() == '\n' {
                self.line = self.line + 1;
            }
            self.advance();
        }
        if self.is_at_end() {
            self.add_error(ScanErrorKind::UnterminatedString, start_line);
            proof {
                assert(error_models(self.errors@) =~= error_models(old(self).errors@) + opt_seq(
                    match step_error(s, i) {
                        Some(k) => Some((k, line_at(s, i))),
                        None => None,
                    },
                ));
                assert(token_models(self.tokens@) =~= token_models(old(self).tokens@) + opt_seq(
                    step_token(s, i),
                ));
            }
            return;
        }
        proof {
            lemma_line_step(s, self.current as int);
        }
        self.advance();
        let value = self.source.as_str().substring_char(self.start + 1, self.current - 1).to_owned();
        self.add_literal_token(TokenType::String, value, start_line);
        proof {
            assert(error_models(self.errors@) =~= error_models(old(self).errors@) + opt_seq(
                match step_error(s, i) {
                    Some(k) => Some((k, line_at(s, i))),
                    None => None,
                },
            ));
            assert(token_models(self.tokens@) =~= token_models(old(self).tokens@) + opt_seq(
                step_token(s, i),
            ));
        }
    }

    /// Chooses the two-character variant of an operator when `=` follows.
    fn with_equal_or_not(&mut self, with_equal: TokenType, without: TokenType) -> (t: TokenType)
        requires
            old(self).wf(),
        ensures
            final(self).wf(),
            final(self).same_buffers(old(self)),
            final(self).line == old(self).line,
            ({
                let matched = char_at(old(self).chars@, old(self).current as int) == '=';
                &&& t == if matched { with_equal } else { without }
                &&& final(self).current == old(self).current + if matched { 1int } else { 0int }
            }),
    {
        if self.contains('=') {
            with_equal
        } else {
            without
        }
    }

    /// Classifies and consumes exactly one lexeme, starting at `current`.
    pub fn scan_token(&mut self)
        requires
            old(self).wf(),
            old(self).line_ok(),
            old(self).start == old(self).current,
            old(self).current < old(self).chars.len(),
        ensures
            final(self).wf(),
            final(self).line_ok(),
            final(self).source == old(self).source,
            final(self).chars == old(self).chars,
            final(self).start == old(self).start,
            final(self).current == step_end(old(self).chars@, old(self).current as int),
            token_models(final(self).tokens@) == token_models(old(self).tokens@) + opt_seq(
                step_token(old(self).chars@, old(self).current as int),
            ),
            error_models(final(self).errors@) == error_models(old(self).errors@) + opt_seq(
                match step_error(old(self).chars@, old(self).current as int) {
                    Some(k) => Some((k, line_at(old(self).chars@, old(self).current as int))),
                    None => None,
                },
            ),
    {
        let ghost s = self.chars@;
        let ghost i = self.current as int;
        let ghost old_tokens = token_models(self.tokens@);
        let ghost old_errors = error_models(self.errors@);
        proof {
            lemma_line_step(s, i);
            lemma_line_bound(s, i);
        }
        let c: char = self.advance();
        match c {
            '(' => self.add_token(TokenType::LeftParen),
            ')' => self.add_token(TokenType::RightParen),
            '{' => self.add_token(TokenType::LeftBrace),
            '}' => self.add_token(TokenType::RightBrace),
            ',' => self.add_token(TokenType::Comma),
            '.' => self.add_token(TokenType::Dot),
            '-' => self.add_token(TokenType::Minus),
            '+' => self.add_token(TokenType::Plus),
            ';' => self.add_token(TokenType::Semicolon),
            '*' => self.add_token(TokenType::Star),
            '!' | '=' | '<' | '>' => {
                proof {
                    if char_at(s, i + 1) == '=' {
                        lemma_line_step(s, i + 1);
                    }
                }
                let token = if c == '!' {
                    self.with_equal_or_not(TokenType::BangEqual, TokenType::Bang)
                } else if c == '=' {
                    self.with_equal_or_not(TokenType::EqualEqual, TokenType::Equal)
                } else if c == '<' {
                    self.with_equal_or_not(TokenType::LessEqual, TokenType::Less)
                } else {
                    self.with_equal_or_not(TokenType::GreaterEqual, TokenType::Greater)
                };
                self.add_token(token);
            },
            '/' => {
                if self.contains('/') {
                    proof {
                        lemma_line_step(s, i + 1);
                        lemma_find_from(s, i + 2, '\n');
                    }
                    while self.peek() != '\n' && !self.is_at_end()
                        invariant
                            self.wf(),
                            self.line_ok(),
                            self.chars@ == s,
                            self.chars == old(self).chars,
                            self.source == old(self).source,
                            self.tokens == old(self).tokens,
                            self.errors == old(self).errors,
                            self.start == old(self).start,
                            i + 2 <= self.current,
                            find_from(s, self.current as int, '\n') == find_from(s, i + 2, '\n'),
                        decreases s.len() - self.current,
                    {
                        proof {
                            lemma_line_step(s, self.current as int);
                        }
                        self.advance();
                    }
                } else {
                    self.add_token(TokenType::Slash)
                }
            },
            ' ' | '\r' | '\t' => {},
            '\n' => self.line = self.line + 1,
            '"' => self.string_advance(),
            _ => {
                if Self::is_digit(c) {
                    self.number_advice();
                } else if Self::is_alpha(c) {
                    self.identifier_advice();
                    proof {
                        lemma_word_end(s, i + 1);
                    }
                } else {
                    let line = self.line;
                    self.add_error(ScanErrorKind::UnexpectedCharacter(c), line);
                }
            },
        }
        proof {
            assert(token_models(self.tokens@) =~= old_tokens + opt_seq(step_token(s, i)));
            assert(error_models(self.errors@) =~= old_errors + opt_seq(
                match step_error(s, i) {
                    Some(k) => Some((k, line_at(s, i))),
                    None => None,
                },
            ));
        }
    }

    /// Scans the rest of the source and appends the end-of-input token.
    pub fn scan_tokens(&mut self)
        requires
            old(self).wf(),
            old(self).line_ok(),
        ensures
            final(self).wf(),
            final(self).source == old(self).source,
            final(self).chars == old(self).chars,
            final(self).current == final(self).chars.len(),
            token_models(final(self).tokens@) == token_models(old(self).tokens@) + tokens_from(
                old(self).chars@,
                old(self).current as int,
            ).push(eof_token(old(self).chars@)),
            error_models(final(self).errors@) == error_models(old(self).errors@) + errors_from(
                old(self).chars@,
                old(self).current as int,
            ),
    {
        let ghost s = self.chars@;
        let ghost from = self.current as int;
        while !self.is_at_end()
            invariant
                self.wf(),
                self.line_ok(),
                self.chars@ == s,
                self.chars == old(self).chars,
                self.source == old(self).source,
                from <= self.current,
                token_models(old(self).tokens@) + tokens_from(s, from) == token_models(self.tokens@)
                    + tokens_from(s, self.current as int),
                error_models(old(self).errors@) + errors_from(s, from) == error_models(self.errors@)
                    + errors_from(s, self.current as int),
            decreases s.len() - self.current,
        {
            self.start = self.current;
            let ghost before_t = token_models(self.tokens@);
            let ghost before_e = error_models(self.errors@);
            let ghost at = self.current as int;
            self.scan_token();
            proof {
                lemma_step_end(s, at);
                assert(before_t + tokens_from(s, at) =~= token_models(self.tokens@) + tokens_from(
                    s,
                    self.current as int,
                ));
                assert(before_e + errors_from(s, at) =~= error_models(self.errors@) + errors_from(
                    s,
                    self.current as int,
                ));
            }
        }
        let line = self.line;
        let ghost before_t = token_models(self.tokens@);
        let eof = Token::new(TokenType::EOF, String::new(), String::new(), line);
        self.tokens.push(eof);
        proof {
            assert(eof.model() == eof_token(s));
            assert(token_models(self.tokens@) =~= before_t.push(eof.model()));
            assert(tokens_from(s, self.current as int) =~= Seq::<TokenModel>::empty());
            assert(errors_from(s, self.current as int) =~= Seq::<ErrorModel>::empty());
            assert(token_models(self.tokens@) =~= token_models(old(self).tokens@) + tokens_from(
                s,
                from,
            ).push(eof_token(s)));
            assert(error_models(self.errors@) =~= error_models(old(self).errors@) + errors_from(
                s,
                from,
            ));
        }
    }
}

} // verus!
