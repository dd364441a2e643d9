use vstd::prelude::*;
use crate::model::{
    char_at, digits_end, eof_token, errors_from, find_from, is_alpha_numeric, is_blank,
    lemma_digits_end, lemma_find_from, lemma_step_end, lemma_word_end, scan_errors_model,
    scan_tokens_model, step_end, step_error, step_token, tokens_from,
};
use crate::scanner::token_models;
use crate::token::{Token, TokenModel, TokenType};

verus! {

/// The lexemes of `ts`, one after another.
pub open spec fn lexemes(ts: Seq<TokenModel>) -> Seq<char>
    decreases ts.len(),
{
    if ts.len() == 0 {
        Seq::empty()
    } else {
        ts[0].1 + lexemes(ts.drop_first())
    }
}

#[via_fn]
proof fn significant_from_decreases(s: Seq<char>, i: int) {
    if 0 <= i < s.len() {
        lemma_find_from(s, i + 1, '"');
        if i + 2 <= s.len() {
            lemma_find_from(s, i + 2, '\n');
        }
    }
}

/// The characters of `s` from `i` on that are neither whitespace outside a
/// string literal nor part of a line comment.
pub open spec fn significant_from(s: Seq<char>, i: int) -> Seq<char>
    decreases s.len() - i
    via significant_from_decreases
{
    if 0 <= i < s.len() {
        let c = s[i];
        if is_blank(c) {
            significant_from(s, i + 1)
        } else if c == '/' && char_at(s, i + 1) == '/' {
            significant_from(s, find_from(s, i + 2, '\n'))
        } else if c == '"' {
            let e = find_from(s, i + 1, '"');
            if e < s.len() {
                s.subrange(i, e + 1) + significant_from(s, e + 1)
            } else {
                s.subrange(i, s.len() as int)
            }
        } else {
            seq![c] + significant_from(s, i + 1)
        }
    } else {
        Seq::empty()
    }
}

/// A character that, between `i` and `j`, is kept as it is.
pub open spec fn plain(c: char) -> bool {
    !is_blank(c) && c != '"' && c != '/'
}

proof fn lemma_significant_plain(s: Seq<char>, i: int, j: int)
    requires
        0 <= i <= j <= s.len(),
        forall|k: int| i <= k < j ==> plain(#[trigger] s[k]),
    ensures
        significant_from(s, i) == s.subrange(i, j) + significant_from(s, j),
    decreases j - i,
{
    if i < j {
        lemma_significant_plain(s, i + 1, j);
        assert(s.subrange(i, j) =~= seq![s[i]] + s.subrange(i + 1, j));
        assert(significant_from(s, i) == seq![s[i]] + significant_from(s, i + 1));
        assert(seq![s[i]] + (s.subrange(i + 1, j) + significant_from(s, j)) =~= s.subrange(i, j)
            + significant_from(s, j));
    } else {
        assert(s.subrange(i, j) =~= Seq::<char>::empty());
    }
}

proof fn lemma_lexemes_cons(o: Seq<TokenModel>, rest: Seq<TokenModel>)
    requires
        o.len() <= 1,
    ensures
        lexemes(o + rest) == (if o.len() == 1 { o[0].1 } else { Seq::empty() }) + lexemes(rest),
{
    if o.len() == 1 {
        assert((o + rest).drop_first() =~= rest);
    } else {
        assert(o + rest =~= rest);
        assert(Seq::<char>::empty() + lexemes(rest) =~= lexemes(rest));
    }
}

proof fn lemma_round_trip_from(s: Seq<char>, i: int)
    requires
        0 <= i <= s.len(),
        errors_from(s, i).len() == 0,
    ensures
        lexemes(tokens_from(s, i)) == significant_from(s, i),
    decreases s.len() - i,
{
    if i < s.len() {
        let e = step_end(s, i);
        lemma_step_end(s, i);
        lemma_round_trip_from(s, e);
        let o = match step_token(s, i) {
            Some(t) => seq![t],
            None => Seq::<TokenModel>::empty(),
        };
        assert(tokens_from(s, i) == o + tokens_from(s, e));
        lemma_lexemes_cons(o, tokens_from(s, e));
        let c = s[i];
        if is_blank(c) || (c == '/' && char_at(s, i + 1) == '/') {
            assert(o.len() == 0);
            assert(Seq::<char>::empty() + significant_from(s, e) =~= significant_from(s, e));
        } else if c == '"' {
            assert(o.len() == 1);
        } else if c == '/' {
            assert(s.subrange(i, e) =~= seq![c]);
        } else {
            lemma_digits_end(s, i + 1);
            lemma_word_end(s, i + 1);
            let d = digits_end(s, i + 1);
            if d + 1 <= s.len() {
                lemma_digits_end(s, d + 1);
            }
            assert(forall|k: int| i <= k < e ==> plain(#[trigger] s[k]));
            lemma_significant_plain(s, i, e);
        }
    }
}

/// Concatenating the lexemes of a scan that met no error gives back the
/// input without its whitespace and comments (whitespace inside string
/// literals is kept, as it belongs to their lexemes).
pub proof fn lemma_round_trip(s: Seq<char>)
    requires
        scan_errors_model(s).len() == 0,
    ensures
        lexemes(scan_tokens_model(s)) == significant_from(s, 0),
{
    lemma_round_trip_from(s, 0);
    let ts = tokens_from(s, 0);
    let eof = seq![eof_token(s)];
    assert(scan_tokens_model(s) =~= ts + eof);
    lemma_lexemes_concat(ts, eof);
    assert(lexemes(eof) =~= Seq::<char>::empty()) by {
        assert(eof.drop_first() =~= Seq::<TokenModel>::empty());
        assert(lexemes(Seq::<TokenModel>::empty()) == Seq::<char>::empty());
        assert(eof[0].1 == Seq::<char>::empty());
    }
    assert(lexemes(ts) + Seq::<char>::empty() =~= lexemes(ts));
}

proof fn lemma_lexemes_concat(a: Seq<TokenModel>, b: Seq<TokenModel>)
    ensures
        lexemes(a + b) == lexemes(a) + lexemes(b),
    decreases a.len(),
{
    if a.len() == 0 {
        assert(a + b =~= b);
        assert(Seq::<char>::empty() + lexemes(b) =~= lexemes(b));
    } else {
        lemma_lexemes_concat(a.drop_first(), b);
        assert((a + b).drop_first() =~= a.drop_first() + b);
        assert(a[0].1 + (lexemes(a.drop_first()) + lexemes(b)) =~= (a[0].1 + lexemes(
            a.drop_first(),
        )) + lexemes(b));
    }
}

proof fn lemma_blank_from(s: Seq<char>, i: int)
    requires
        0 <= i <= s.len(),
        forall|k: int| 0 <= k < s.len() ==> is_blank(#[trigger] s[k]),
    ensures
        tokens_from(s, i).len() == 0,
        errors_from(s, i).len() == 0,
    decreases s.len() - i,
{
    if i < s.len() {
        assert(is_blank(s[i]));
        lemma_blank_from(s, i + 1);
    }
}

/// An input of whitespace and newlines only (or none at all) scans to the
/// end-of-input token alone, with no error.
pub proof fn lemma_blank_input(s: Seq<char>)
    requires
        forall|k: int| 0 <= k < s.len() ==> is_blank(#[trigger] s[k]),
    ensures
        scan_tokens_model(s) == seq![eof_token(s)],
        scan_errors_model(s).len() == 0,
{
    lemma_blank_from(s, 0);
    assert(scan_tokens_model(s) =~= seq![eof_token(s)]);
}

proof fn lemma_tokens_nonempty_from(s: Seq<char>, i: int)
    requires
        0 <= i <= s.len(),
    ensures
        forall|k: int|
            0 <= k < tokens_from(s, i).len() ==> (#[trigger] tokens_from(s, i)[k]).1.len() > 0
                && tokens_from(s, i)[k].0 != TokenType::EOF,
    decreases s.len() - i,
{
    if i < s.len() {
        let e = step_end(s, i);
        lemma_step_end(s, i);
        lemma_tokens_nonempty_from(s, e);
        assert(step_type_not_eof(s, i));
    }
}

spec fn step_type_not_eof(s: Seq<char>, i: int) -> bool {
    step_token(s, i) matches Some(t) ==> t.0 != TokenType::EOF
}

/// The last token of every scan is the end-of-input token, and it is the
/// only one with an empty lexeme.
pub proof fn lemma_eof_last(s: Seq<char>)
    ensures
        ({
            let ts = scan_tokens_model(s);
            &&& ts.len() >= 1
            &&& ts.last().0 == TokenType::EOF
            &&& ts.last().1.len() == 0
            &&& forall|k: int| 0 <= k < ts.len() - 1 ==> (#[trigger] ts[k]).1.len() > 0
                && ts[k].0 != TokenType::EOF
        }),
{
    lemma_tokens_nonempty_from(s, 0);
    let ts = scan_tokens_model(s);
    assert forall|k: int| 0 <= k < ts.len() - 1 implies (#[trigger] ts[k]).1.len() > 0
        && ts[k].0 != TokenType::EOF by {
        assert(ts[k] == tokens_from(s, 0)[k]);
    }
}

/// Scanning is deterministic: two results that both meet the contract of a
/// scan of the same input hold the same tokens.
pub proof fn lemma_scan_deterministic(s: Seq<char>, a: Seq<Token>, b: Seq<Token>)
    requires
        token_models(a) == scan_tokens_model(s),
        token_models(b) == scan_tokens_model(s),
    ensures
        token_models(a) == token_models(b),
{
}

proof fn lemma_reaches(s: Seq<char>, j: int, i: int)
    requires
        0 <= j <= i < s.len(),
        forall|k: int| j <= k < i ==> #[trigger] s[k] != '"' && s[k] != '/',
        !is_alpha_numeric(s[i]),
        s[i] != '.',
        s[i] != '=',
    ensures
        errors_from(s, i).len() <= errors_from(s, j).len(),
    decreases i - j,
{
    if j < i {
        let e = step_end(s, j);
        lemma_step_end(s, j);
        lemma_digits_end(s, j + 1);
        lemma_word_end(s, j + 1);
        let d = digits_end(s, j + 1);
        if d + 1 <= s.len() {
            lemma_digits_end(s, d + 1);
        }
        assert(e <= i);
        lemma_reaches(s, e, i);
    }
}

/// An offending character (one that starts no token, or a quote that is
/// never closed) that no quote or slash precedes is reported, and the scan
/// still ends in the end-of-input token.
pub proof fn lemma_error_reported(s: Seq<char>, i: int)
    requires
        0 <= i < s.len(),
        forall|k: int| 0 <= k < i ==> #[trigger] s[k] != '"' && s[k] != '/',
        step_error(s, i) is Some,
    ensures
        scan_errors_model(s).len() > 0,
        scan_tokens_model(s).last().0 == TokenType::EOF,
{
    lemma_reaches(s, 0, i);
    lemma_step_end(s, i);
}

} // verus!
