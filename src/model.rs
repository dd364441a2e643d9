use vstd::prelude::*;
use crate::token::{TokenModel, TokenType};

verus! {

/// What one lexical error is: its kind and the line it is reported on.
pub type ErrorModel = (ScanErrorKind, int);

/// The two lexical errors the scanner can meet.
#[derive(Debug, Clone, Copy, PartialEq, Eq, Structural)]
pub enum ScanErrorKind {
    /// End of input was reached before the closing quote of a string.
    UnterminatedString,
    /// A character that starts no token.
    UnexpectedCharacter(char),
}

pub open spec fn is_digit(c: char) -> bool {
    '0' <= c && c <= '9'
}

pub open spec fn is_alpha(c: char) -> bool {
    ('a' <= c && c <= 'z') || ('A' <= c && c <= 'Z') || c == '_'
}

pub open spec fn is_alpha_numeric(c: char) -> bool {
    is_alpha(c) || is_digit(c)
}

pub open spec fn is_blank(c: char) -> bool {
    c == ' ' || c == '\r' || c == '\t' || c == '\n'
}

/// The character at `i`, or the null character past either end.
pub open spec fn char_at(s: Seq<char>, i: int) -> char {
    if 0 <= i < s.len() {
        s[i]
    } else {
        '\0'
    }
}

/// End of the maximal run of digits that starts at `i`.
pub open spec fn digits_end(s: Seq<char>, i: int) -> int
    decreases s.len() - i,
{
    if 0 <= i < s.len() && is_digit(s[i]) {
        digits_end(s, i + 1)
    } else {
        i
    }
}

/// End of the maximal run of letters, digits and underscores that starts at `i`.
pub open spec fn word_end(s: Seq<char>, i: int) -> int
    decreases s.len() - i,
{
    if 0 <= i < s.len() && is_alpha_numeric(s[i]) {
        word_end(s, i + 1)
    } else {
        i
    }
}

/// The first position at or after `i` that holds `stop`, or the end of input.
pub open spec fn find_from(s: Seq<char>, i: int, stop: char) -> int
    decreases s.len() - i,
{
    if 0 <= i < s.len() && s[i] != stop {
        find_from(s, i + 1, stop)
    } else {
        i
    }
}

/// End of a number whose first digit is just before `i`: the fraction is
/// taken only when a digit follows the dot.
pub open spec fn number_end(s: Seq<char>, i: int) -> int {
    let e = digits_end(s, i);
    if char_at(s, e) == '.' && is_digit(char_at(s, e + 1)) {
        digits_end(s, e + 1)
    } else {
        e
    }
}

/// The number of newlines in `s`.
pub open spec fn newlines(s: Seq<char>) -> nat
    decreases s.len(),
{
    if s.len() == 0 {
        0
    } else {
        newlines(s.drop_last()) + if s.last() == '\n' { 1nat } else { 0nat }
    }
}

/// The line, counting from one, of position `i`.
pub open spec fn line_at(s: Seq<char>, i: int) -> int {
    1 + newlines(s.take(i)) as int
}

pub open spec fn is_two_char_operator_head(c: char) -> bool {
    c == '!' || c == '=' || c == '<' || c == '>'
}

/// The token kind of a reserved word, or `Identifier` for any other word.
pub open spec fn keyword_type(w: Seq<char>) -> TokenType {
    if w == seq!['a', 'n', 'd'] {
        TokenType::And
    } else if w == seq!['c', 'l', 'a', 's', 's'] {
        TokenType::Class
    } else if w == seq!['e', 'l', 's', 'e'] {
        TokenType::Else
    } else if w == seq!['f', 'a', 'l', 's', 'e'] {
        TokenType::False
    } else if w == seq!['f', 'o', 'r'] {
        TokenType::For
    } else if w == seq!['f', 'u', 'n'] {
        TokenType::Fun
    } else if w == seq!['i', 'f'] {
        TokenType::If
    } else if w == seq!['n', 'i', 'l'] {
        TokenType::Nil
    } else if w == seq!['o', 'r'] {
        TokenType::Or
    } else if w == seq!['p', 'r', 'i', 'n', 't'] {
        TokenType::Print
    } else if w == seq!['r', 'e', 't', 'u', 'r', 'n'] {
        TokenType::Return
    } else if w == seq!['s', 'u', 'p', 'e', 'r'] {
        TokenType::Super
    } else if w == seq!['t', 'h', 'i', 's'] {
        TokenType::This
    } else if w == seq!['t', 'r', 'u', 'e'] {
        TokenType::True
    } else if w == seq!['v', 'a', 'r'] {
        TokenType::Var
    } else if w == seq!['w', 'h', 'i', 'l', 'e'] {
        TokenType::While
    } else {
        TokenType::Identifier
    }
}

/// The kind of a single-character punctuation token.
pub open spec fn punctuation_type(c: char) -> Option<TokenType> {
    if c == '(' {
        Some(TokenType::LeftParen)
    } else if c == ')' {
        Some(TokenType::RightParen)
    } else if c == '{' {
        Some(TokenType::LeftBrace)
    } else if c == '}' {
        Some(TokenType::RightBrace)
    } else if c == ',' {
        Some(TokenType::Comma)
    } else if c == '.' {
        Some(TokenType::Dot)
    } else if c == '-' {
        Some(TokenType::Minus)
    } else if c == '+' {
        Some(TokenType::Plus)
    } else if c == ';' {
        Some(TokenType::Semicolon)
    } else if c == '*' {
        Some(TokenType::Star)
    } else {
        None
    }
}

/// The kind of an operator that may be followed by `=`.
pub open spec fn operator_type(c: char, with_equal: bool) -> TokenType {
    if c == '!' {
        if with_equal { TokenType::BangEqual } else { TokenType::Bang }
    } else if c == '=' {
        if with_equal { TokenType::EqualEqual } else { TokenType::Equal }
    } else if c == '<' {
        if with_equal { TokenType::LessEqual } else { TokenType::Less }
    } else {
        if with_equal { TokenType::GreaterEqual } else { TokenType::Greater }
    }
}

/// Where the lexeme that starts at `i` (inside the input) ends.
pub open spec fn step_end(s: Seq<char>, i: int) -> int {
    let c = s[i];
    if is_two_char_operator_head(c) {
        if char_at(s, i + 1) == '=' { i + 2 } else { i + 1 }
    } else if c == '/' {
        if char_at(s, i + 1) == '/' { find_from(s, i + 2, '\n') } else { i + 1 }
    } else if c == '"' {
        let e = find_from(s, i + 1, '"');
        if e < s.len() { e + 1 } else { e }
    } else if is_digit(c) {
        number_end(s, i + 1)
    } else if is_alpha(c) {
        word_end(s, i + 1)
    } else {
        i + 1
    }
}

/// The kind of the token that the lexeme at `i` yields, if it yields one.
pub open spec fn step_type(s: Seq<char>, i: int) -> Option<TokenType> {
    let c = s[i];
    if punctuation_type(c) is Some {
        punctuation_type(c)
    } else if is_two_char_operator_head(c) {
        Some(operator_type(c, char_at(s, i + 1) == '='))
    } else if c == '/' {
        if char_at(s, i + 1) == '/' { None } else { Some(TokenType::Slash) }
    } else if c == '"' {
        if find_from(s, i + 1, '"') < s.len() { Some(TokenType::String) } else { None }
    } else if is_digit(c) {
        Some(TokenType::Number)
    } else if is_alpha(c) {
        Some(keyword_type(s.subrange(i, step_end(s, i))))
    } else {
        None
    }
}

/// The error that the lexeme at `i` raises, if any.
pub open spec fn step_error(s: Seq<char>, i: int) -> Option<ScanErrorKind> {
    let c = s[i];
    if c == '"' {
        if find_from(s, i + 1, '"') < s.len() { None } else { Some(ScanErrorKind::UnterminatedString) }
    } else if punctuation_type(c) is Some || is_two_char_operator_head(c) || c == '/'
        || is_blank(c) || is_digit(c) || is_alpha(c) {
        None
    } else {
        Some(ScanErrorKind::UnexpectedCharacter(c))
    }
}

/// The literal of a token of kind `t` spanning `[i, e)`.
pub open spec fn literal_of(s: Seq<char>, i: int, e: int, t: TokenType) -> Seq<char> {
    if t == TokenType::String {
        s.subrange(i + 1, e - 1)
    } else if t == TokenType::Number {
        s.subrange(i, e)
    } else {
        Seq::empty()
    }
}

/// The token that the lexeme at `i` yields, if any.
pub open spec fn step_token(s: Seq<char>, i: int) -> Option<TokenModel> {
    match step_type(s, i) {
        Some(t) => {
            let e = step_end(s, i);
            Some((t, s.subrange(i, e), literal_of(s, i, e, t), line_at(s, i)))
        },
        None => None,
    }
}

pub open spec fn opt_seq<A>(o: Option<A>) -> Seq<A> {
    match o {
        Some(a) => seq![a],
        None => Seq::empty(),
    }
}

pub proof fn lemma_digits_end(s: Seq<char>, i: int)
    requires
        0 <= i <= s.len(),
    ensures
        i <= digits_end(s, i) <= s.len(),
        forall|k: int| i <= k < digits_end(s, i) ==> is_digit(#[trigger] s[k]),
        digits_end(s, i) < s.len() ==> !is_digit(s[digits_end(s, i)]),
    decreases s.len() - i,
{
    if i < s.len() && is_digit(s[i]) {
        lemma_digits_end(s, i + 1);
    }
}

pub proof fn lemma_word_end(s: Seq<char>, i: int)
    requires
        0 <= i <= s.len(),
    ensures
        i <= word_end(s, i) <= s.len(),
        forall|k: int| i <= k < word_end(s, i) ==> is_alpha_numeric(#[trigger] s[k]),
        word_end(s, i) < s.len() ==> !is_alpha_numeric(s[word_end(s, i)]),
    decreases s.len() - i,
{
    if i < s.len() && is_alpha_numeric(s[i]) {
        lemma_word_end(s, i + 1);
    }
}

pub proof fn lemma_find_from(s: Seq<char>, i: int, stop: char)
    requires
        0 <= i <= s.len(),
    ensures
        i <= find_from(s, i, stop) <= s.len(),
        forall|k: int| i <= k < find_from(s, i, stop) ==> #[trigger] s[k] != stop,
        find_from(s, i, stop) < s.len() ==> s[find_from(s, i, stop)] == stop,
    decreases s.len() - i,
{
    if i < s.len() && s[i] != stop {
        lemma_find_from(s, i + 1, stop);
    }
}

/// Every lexeme is non-empty and stays inside the input.
pub proof fn lemma_step_end(s: Seq<char>, i: int)
    requires
        0 <= i < s.len(),
    ensures
        i < step_end(s, i) <= s.len(),
{
    lemma_digits_end(s, i + 1);
    lemma_word_end(s, i + 1);
    lemma_find_from(s, i + 1, '"');
    if i + 2 <= s.len() {
        lemma_find_from(s, i + 2, '\n');
    }
    let e = digits_end(s, i + 1);
    if e + 1 <= s.len() {
        lemma_digits_end(s, e + 1);
    }
}

pub proof fn lemma_line_step(s: Seq<char>, i: int)
    requires
        0 <= i < s.len(),
    ensures
        line_at(s, i + 1) == line_at(s, i) + if s[i] == '\n' { 1int } else { 0int },
{
    assert(s.take(i + 1).drop_last() =~= s.take(i));
}

pub proof fn lemma_line_bound(s: Seq<char>, i: int)
    requires
        0 <= i <= s.len(),
    ensures
        1 <= line_at(s, i) <= i + 1,
    decreases i,
{
    if i > 0 {
        lemma_line_bound(s, i - 1);
        lemma_line_step(s, i - 1);
    }
}

#[via_fn]
proof fn tokens_from_decreases(s: Seq<char>, i: int) {
    if 0 <= i < s.len() {
        lemma_step_end(s, i);
    }
}

/// The tokens that scanning yields from position `i` on, without the end marker.
pub open spec fn tokens_from(s: Seq<char>, i: int) -> Seq<TokenModel>
    decreases s.len() - i
    via tokens_from_decreases
{
    if 0 <= i < s.len() {
        opt_seq(step_token(s, i)) + tokens_from(s, step_end(s, i))
    } else {
        Seq::empty()
    }
}

#[via_fn]
proof fn errors_from_decreases(s: Seq<char>, i: int) {
    if 0 <= i < s.len() {
        lemma_step_end(s, i);
    }
}

/// The errors that scanning meets from position `i` on, with their lines.
pub open spec fn errors_from(s: Seq<char>, i: int) -> Seq<ErrorModel>
    decreases s.len() - i
    via errors_from_decreases
{
    if 0 <= i < s.len() {
        opt_seq(
            match step_error(s, i) {
                Some(k) => Some((k, line_at(s, i))),
                None => None,
            },
        ) + errors_from(s, step_end(s, i))
    } else {
        Seq::empty()
    }
}

/// The end-of-input token for the source `s`.
pub open spec fn eof_token(s: Seq<char>) -> TokenModel {
    (TokenType::EOF, Seq::empty(), Seq::empty(), line_at(s, s.len() as int))
}

/// The whole token sequence of `s`, ending in the end-of-input token.
pub open spec fn scan_tokens_model(s: Seq<char>) -> Seq<TokenModel> {
    tokens_from(s, 0).push(eof_token(s))
}

/// The whole error sequence of `s`.
pub open spec fn scan_errors_model(s: Seq<char>) -> Seq<ErrorModel> {
    errors_from(s, 0)
}

} // verus!
