//! Lexical units and the classification of characters.

use vstd::prelude::*;

verus! {

/// One lexical unit.
#[derive(Clone, Copy, Debug, PartialEq, Eq, Structural)]
pub enum Token {
    /// A single ASCII letter or digit: an operand.
    Atom(char),
    /// Any other character that is not whitespace: an operator or a delimiter.
    Op(char),
    /// No more input.
    Eof,
}

/// Whether `c` carries the Unicode property `White_Space`.
pub open spec fn is_space(c: char) -> bool {
    ||| '\u{9}' <= c <= '\u{d}'
    ||| c == ' '
    ||| c == '\u{85}'
    ||| c == '\u{a0}'
    ||| c == '\u{1680}'
    ||| '\u{2000}' <= c <= '\u{200a}'
    ||| c == '\u{2028}'
    ||| c == '\u{2029}'
    ||| c == '\u{202f}'
    ||| c == '\u{205f}'
    ||| c == '\u{3000}'
}

/// Whether `c` is an ASCII digit or an ASCII letter.
pub open spec fn is_operand(c: char) -> bool {
    ||| '0' <= c <= '9'
    ||| 'a' <= c <= 'z'
    ||| 'A' <= c <= 'Z'
}

/// The token that a character lexes to; `None` for whitespace, which lexes to nothing.
pub open spec fn token_of(c: char) -> Option<Token> {
    if is_space(c) {
        None
    } else if is_operand(c) {
        Some(Token::Atom(c))
    } else {
        Some(Token::Op(c))
    }
}

/// The tokens of a text, in source order: one per character that is not whitespace.
pub open spec fn lex(text: Seq<char>) -> Seq<Token> {
    text.filter_map(|c: char| token_of(c))
}

/// The first of `tokens`; `Eof` where there is none.
pub open spec fn head(tokens: Seq<Token>) -> Token {
    if tokens.len() == 0 {
        Token::Eof
    } else {
        tokens[0]
    }
}

/// All of `tokens` but the first; nothing where there is none.
pub open spec fn tail(tokens: Seq<Token>) -> Seq<Token> {
    if tokens.len() == 0 {
        tokens
    } else {
        tokens.skip(1)
    }
}

/// Decides `is_space`.
pub fn is_whitespace(c: char) -> (b: bool)
    ensures
        b == is_space(c),
{
    ('\u{9}' <= c && c <= '\u{d}') || c == ' ' || c == '\u{85}' || c == '\u{a0}' || c == '\u{1680}'
        || ('\u{2000}' <= c && c <= '\u{200a}') || c == '\u{2028}' || c == '\u{2029}' || c
        == '\u{202f}' || c == '\u{205f}' || c == '\u{3000}'
}

/// Classifies one character.
pub fn classify(c: char) -> (t: Option<Token>)
    ensures
        t == token_of(c),
{
    if is_whitespace(c) {
        None
    } else if ('0' <= c && c <= '9') || ('a' <= c && c <= 'z') || ('A' <= c && c <= 'Z') {
        Some(Token::Atom(c))
    } else {
        Some(Token::Op(c))
    }
}

} // verus!
