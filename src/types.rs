use vstd::prelude::*;

use crate::syntax_elements::{Token, TokenView};

verus! {

/// One source line: its text, its fragments and the token of each fragment.
pub struct Line {
    pub tokenized_body: Vec<Token>,
    pub base_body: String,
    pub split_body: Vec<String>,
    pub number: i64,
}

/// The mathematical tokens of a token sequence.
pub open spec fn token_views(ts: Seq<Token>) -> Seq<TokenView> {
    ts.map_values(|t: Token| t@)
}

impl Line {
    /// Each fragment has exactly one token.
    pub open spec fn well_formed(&self) -> bool {
        self.tokenized_body.len() == self.split_body.len()
    }

    pub open spec fn tokens(&self) -> Seq<TokenView> {
        token_views(self.tokenized_body@)
    }

    pub fn new(
        tokenized_body: Vec<Token>,
        base_body: String,
        split_body: Vec<String>,
        number: i64,
    ) -> (r: Line)
        requires
            tokenized_body.len() == split_body.len(),
        ensures
            r.tokenized_body == tokenized_body,
            r.base_body == base_body,
            r.split_body == split_body,
            r.number == number,
            r.well_formed(),
    {
        Line { tokenized_body, base_body, split_body, number }
    }
}

} // verus!
