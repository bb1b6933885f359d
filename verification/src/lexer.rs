//! The token stream.

use vstd::prelude::*;
use crate::token::{Token, classify, head, lex, tail, token_of};

verus! {

/// The tokens of a text that have not been consumed yet.
///
/// They are stored last-first, so that taking the next one removes the last
/// element of the vector.
#[derive(Clone, Debug)]
pub struct Lexer {
    tokens: Vec<Token>,
}

impl View for Lexer {
    type V = Seq<Token>;

    /// The remaining tokens, next one first.
    closed spec fn view(&self) -> Seq<Token> {
        self.tokens@.reverse()
    }
}

impl Lexer {
    /// Lexes `input`: nothing is consumed yet.
    pub fn new(input: &str) -> (lexer: Lexer)
        ensures
            lexer@ == lex(input@),
    {
        let mut forward: Vec<Token> = Vec::new();
        for c in it: input.chars()
            invariant
                it.seq() == input@,
                forward@ == lex(input@.take(it.index() as int)),
        {
            proof {
                input@.lemma_filter_map_take_succ(|c: char| token_of(c), it.index() as int);
            }
            match classify(c) {
                Some(t) => forward.push(t),
                None => {},
            }
        }
        assert(input@.take(input@.len() as int) == input@);
        let mut tokens: Vec<Token> = Vec::new();
        let mut i: usize = forward.len();
        while i > 0
            invariant
                i <= forward.len(),
                tokens@ == forward@.skip(i as int).reverse(),
            decreases i,
        {
            i -= 1;
            tokens.push(forward[i]);
        }
        Lexer { tokens }
    }

    /// Removes and returns the next token; `Eof` once none is left.
    pub fn next(&mut self) -> (t: Token)
        ensures
            t == head(old(self)@),
            final(self)@ == tail(old(self)@),
    {
        match self.tokens.pop() {
            Some(t) => t,
            None => Token::Eof,
        }
    }

    /// The token that `next` would return; nothing is consumed.
    pub fn peek(&self) -> (t: Token)
        ensures
            t == head(self@),
    {
        if self.tokens.len() == 0 {
            Token::Eof
        } else {
            self.tokens[self.tokens.len() - 1]
        }
    }
}

} // verus!
