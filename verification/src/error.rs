//! The error raised when parsing fails: a human-readable message paired with
//! the 1-based line number at which the violation was detected.

use vstd::prelude::*;

verus! {

/// Mathematical model of a [`ParseError`].
pub ghost struct ParseErrorView {
    pub msg: Seq<char>,
    pub line: int,
}

/// A parse failure: what went wrong and on which physical line (1-based) of
/// the input it was detected.
#[derive(Debug)]
pub struct ParseError {
    pub msg: String,
    pub line: usize,
}

impl View for ParseError {
    type V = ParseErrorView;

    open spec fn view(&self) -> ParseErrorView {
        ParseErrorView { msg: self.msg@, line: self.line as int }
    }
}

} // verus!
