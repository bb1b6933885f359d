//! A small expression parser by precedence climbing, with contracts that Verus
//! proves.
//!
//! A text is split into tokens of one character each ([`Lexer`]), and the
//! tokens are parsed into a syntax tree ([`S`]) by comparing binding powers
//! ([`power`]): prefix, infix and postfix operators, grouping, indexing and a
//! conditional. What the parser returns is stated against [`grammar::parse`],
//! the tree that a text denotes, and [`laws`] says what holds of every parse.
//!
//! [`expr`] is for texts that are known to be expressions; [`try_expr`] takes any
//! text and says why one is none.

use vstd::prelude::*;

pub mod grammar;
pub mod laws;
pub mod lexer;
pub mod parser;
pub mod power;
pub mod token;
pub mod tree;

pub use grammar::ParseError;
pub use lexer::Lexer;
pub use parser::{expr, expr_bp, try_expr, try_expr_bp};
pub use power::{infix_bp, postfix_bp, prefix_bp};
pub use token::Token;
pub use tree::S;

verus! {

/// The answer.
pub fn answer() -> (r: u32)
    ensures
        r == 42,
{
    42
}

} // verus!
