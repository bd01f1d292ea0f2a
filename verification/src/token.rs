//! Positioned words of a source text.

use vstd::prelude::*;

verus! {

/// One whitespace-separated word of the source, with its position:
/// `row` is the zero-based line, `col` the zero-based index of the word
/// within that line.
#[derive(Debug)]
pub struct Token {
    pub tok: String,
    pub row: usize,
    pub col: usize,
}

/// The mathematical value of a [`Token`].
pub struct Tok {
    pub text: Seq<char>,
    pub row: nat,
    pub col: nat,
}

impl View for Token {
    type V = Tok;

    open spec fn view(&self) -> Tok {
        Tok { text: self.tok@, row: self.row as nat, col: self.col as nat }
    }
}

impl DeepView for Token {
    type V = Tok;

    open spec fn deep_view(&self) -> Tok {
        self@
    }
}

impl Token {
    pub fn new(tok: String, row: usize, col: usize) -> (t: Token)
        ensures
            t.tok == tok,
            t.row == row,
            t.col == col,
    {
        Token { tok, row, col }
    }
}

} // verus!
