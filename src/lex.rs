use vstd::prelude::*;
use crate::scanner::{error_models, scan, token_models, ScanError};
use crate::model::{scan_errors_model, scan_tokens_model};
use crate::token::Token;

verus! {

/// A driver that scans source texts and latches whether any of them held a
/// lexical error.
#[derive(Debug)]
pub struct Lex {
    pub had_error: bool,
}

impl Lex {
    pub fn new() -> (r: Lex)
        ensures
            !r.had_error,
    {
        Lex { had_error: false }
    }

    /// Records that an error was reported. Printing the report is left to
    /// the caller.
    pub fn lex_error(&mut self, line: usize, message: &str)
        ensures
            final(self).had_error,
    {
        self.had_error = true;
    }

    /// Scans `source` and latches the error flag if the scan met any error.
    pub fn scan_tokens(&mut self, source: &str) -> (r: (Vec<Token>, Vec<ScanError>))
        ensures
            token_models(r.0@) == scan_tokens_model(source@),
            error_models(r.1@) == scan_errors_model(source@),
            final(self).had_error == (old(self).had_error || r.1@.len() > 0),
    {
        let r = scan(source);
        let mut i: usize = 0;
        while i < r.1.len()
            invariant
                i <= r.1@.len(),
                self.had_error == (old(self).had_error || i > 0),
            decreases r.1@.len() - i,
        {
            let e = r.1[i];
            let message = e.message();
            self.lex_error(e.line, message.as_str());
            i = i + 1;
        }
        r
    }
}

} // verus!
