//! What parsing means: the tree that a sequence of tokens denotes.

use vstd::prelude::*;
use crate::power::{infix_power, postfix_power, prefix_power};
use crate::token::{Token, head, lex, tail};
use crate::tree::Tree;

verus! {

/// Why a sequence of tokens denotes no tree.
#[derive(Clone, Copy, Debug, PartialEq, Eq, Structural)]
pub enum ParseError {
    /// This token cannot stand where it was found.
    UnexpectedToken(Token),
    /// This closing delimiter was required, and that token was found in its place.
    UnmatchedDelimiter(char, Token),
    /// This operator has no binding power in the role it was found in.
    UnknownOperator(char),
}

/// A tree together with the tokens that follow it, or the reason why there is none.
pub type Parsed = Result<(Tree, Seq<Token>), ParseError>;

/// The parse that found `tree` and left `rest`.
pub open spec fn parsed(tree: Tree, rest: Seq<Token>) -> Parsed {
    Ok((tree, rest))
}

/// The parse that failed for the reason `e`.
pub open spec fn rejected(e: ParseError) -> Parsed {
    Err(e)
}

/// Whether `op` ends the operator loop without being consumed: it closes a
/// group or an index, or separates the branches of a conditional.
pub open spec fn is_terminator(op: char) -> bool {
    op == ')' || op == ']' || op == ':'
}

/// Requires `delimiter` at the front of `tokens` and hands on what follows it.
pub open spec fn expect(tokens: Seq<Token>, delimiter: char) -> Result<Seq<Token>, ParseError> {
    if head(tokens) == Token::Op(delimiter) {
        Ok(tail(tokens))
    } else {
        Err(ParseError::UnmatchedDelimiter(delimiter, head(tokens)))
    }
}

/// An expression at the front of `tokens`: a primary, then as many operators as
/// bind at least as tightly as `min_bp`. The result holds the tokens that follow
/// the expression.
///
/// Here and in `parse_operators`, what is left after a part has to be shorter
/// than what there was before it. That comparison carries the termination
/// argument and nothing else: it always holds, since a primary takes at least
/// one token (`laws::progress`).
pub open spec fn parse_expr(tokens: Seq<Token>, min_bp: nat) -> Parsed
    decreases tokens.len(), 2nat,
{
    match parse_primary(tokens) {
        Err(e) => Err(e),
        Ok((lhs, rest)) => if rest.len() < tokens.len() {
            parse_operators(lhs, rest, min_bp)
        } else {
            arbitrary()
        },
    }
}

/// A primary at the front of `tokens`: an atom, a parenthesised expression, or a
/// prefix operator with its operand.
pub open spec fn parse_primary(tokens: Seq<Token>) -> Parsed
    decreases tokens.len(), 1nat,
{
    match head(tokens) {
        Token::Atom(c) => Ok((Tree::Atom(c), tail(tokens))),
        Token::Op(op) => if op == '(' {
            match parse_expr(tail(tokens), 0) {
                Err(e) => Err(e),
                Ok((inner, rest)) => match expect(rest, ')') {
                    Err(e) => Err(e),
                    Ok(rest) => Ok((inner, rest)),
                },
            }
        } else {
            match prefix_power(op) {
                None => Err(ParseError::UnknownOperator(op)),
                Some(r_bp) => match parse_expr(tail(tokens), r_bp) {
                    Err(e) => Err(e),
                    Ok((operand, rest)) => Ok((Tree::Cons(op, seq![operand]), rest)),
                },
            }
        },
        Token::Eof => Err(ParseError::UnexpectedToken(Token::Eof)),
    }
}

/// The operators that follow the operand `lhs`, up to the first that binds
/// looser than `min_bp`, a terminator, or the end.
pub open spec fn parse_operators(lhs: Tree, tokens: Seq<Token>, min_bp: nat) -> Parsed
    decreases tokens.len(), 0nat,
{
    match head(tokens) {
        Token::Eof => Ok((lhs, tokens)),
        Token::Atom(c) => Err(ParseError::UnexpectedToken(Token::Atom(c))),
        Token::Op(op) => if is_terminator(op) {
            Ok((lhs, tokens))
        } else if postfix_power(op) is Some {
            if postfix_power(op)->0 < min_bp {
                Ok((lhs, tokens))
            } else if op == '[' {
                match parse_expr(tail(tokens), 0) {
                    Err(e) => Err(e),
                    Ok((index, rest)) => match expect(rest, ']') {
                        Err(e) => Err(e),
                        Ok(rest) => if rest.len() < tokens.len() {
                            parse_operators(Tree::Cons(op, seq![lhs, index]), rest, min_bp)
                        } else {
                            arbitrary()
                        },
                    },
                }
            } else {
                parse_operators(Tree::Cons(op, seq![lhs]), tail(tokens), min_bp)
            }
        } else {
            match infix_power(op) {
                None => Err(ParseError::UnknownOperator(op)),
                Some((l_bp, r_bp)) => if l_bp < min_bp {
                    Ok((lhs, tokens))
                } else if op == '?' {
                    match parse_expr(tail(tokens), 0) {
                        Err(e) => Err(e),
                        Ok((mhs, rest)) => match expect(rest, ':') {
                            Err(e) => Err(e),
                            Ok(rest) => if rest.len() < tokens.len() {
                                match parse_expr(rest, r_bp) {
                                    Err(e) => Err(e),
                                    Ok((rhs, rest)) => if rest.len() < tokens.len() {
                                        parse_operators(
                                            Tree::Cons(op, seq![lhs, mhs, rhs]),
                                            rest,
                                            min_bp,
                                        )
                                    } else {
                                        arbitrary()
                                    },
                                }
                            } else {
                                arbitrary()
                            },
                        },
                    }
                } else {
                    match parse_expr(tail(tokens), r_bp) {
                        Err(e) => Err(e),
                        Ok((rhs, rest)) => if rest.len() < tokens.len() {
                            parse_operators(Tree::Cons(op, seq![lhs, rhs]), rest, min_bp)
                        } else {
                            arbitrary()
                        },
                    }
                },
            }
        },
    }
}

/// The tree that a text denotes: the first expression of its tokens.
pub open spec fn parse(text: Seq<char>) -> Result<Tree, ParseError> {
    match parse_expr(lex(text), 0) {
        Ok((tree, _)) => Ok(tree),
        Err(e) => Err(e),
    }
}

} // verus!
