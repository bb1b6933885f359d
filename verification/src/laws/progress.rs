//! Progress: a parse takes its tokens from the front, at least one, and never
//! looks at one twice.

use vstd::prelude::*;
use crate::grammar::{expect, is_terminator, parse_expr, parse_operators, parse_primary};
use crate::power::{infix_power, postfix_power, prefix_power};
use crate::token::{Token, head, tail};
use crate::tree::Tree;

verus! {

/// Whether `rest` is what is left of `tokens` once some of them, from the front,
/// have been consumed.
pub open spec fn is_rest_of(rest: Seq<Token>, tokens: Seq<Token>) -> bool {
    &&& rest.len() <= tokens.len()
    &&& rest == tokens.skip(tokens.len() - rest.len())
}

/// All the tokens are what is left when none was consumed, and all but the
/// first when one was.
pub(crate) proof fn lemma_rest_of_self(tokens: Seq<Token>)
    ensures
        is_rest_of(tokens, tokens),
        is_rest_of(tail(tokens), tokens),
{
    assert(tokens.skip(0) == tokens);
}

/// What is left of the tokens behind the first is left of all of them, and so
/// is what follows its own first.
pub(crate) proof fn lemma_rest_of_tail(rest: Seq<Token>, tokens: Seq<Token>)
    requires
        is_rest_of(rest, tail(tokens)),
    ensures
        is_rest_of(rest, tokens),
        is_rest_of(tail(rest), tokens),
{
    if tokens.len() > 0 {
        assert(tokens.skip(1).skip(tokens.len() - 1 - rest.len()) == tokens.skip(
            tokens.len() - rest.len(),
        ));
    }
    lemma_rest_of_trans(tail(rest), rest, tokens);
}

/// What is left of what is left is left.
pub(crate) proof fn lemma_rest_of_trans(a: Seq<Token>, b: Seq<Token>, c: Seq<Token>)
    requires
        is_rest_of(a, b) || a == tail(b),
        is_rest_of(b, c),
    ensures
        is_rest_of(a, c),
{
    if a == tail(b) {
        if b.len() > 0 {
            assert(b.skip(b.len() - a.len()) == a);
        } else {
            assert(b.skip(0) == b);
        }
    }
    assert(c.skip(c.len() - b.len()).skip(b.len() - a.len()) == c.skip(c.len() - a.len()));
}

/// A parsed expression took at least one token, from the front and without gaps.
pub proof fn lemma_expr_consumes(tokens: Seq<Token>, min_bp: nat)
    ensures
        parse_expr(tokens, min_bp) matches Ok((_, rest)) ==> rest.len() < tokens.len()
            && is_rest_of(rest, tokens),
    decreases tokens.len(), 2nat,
{
    lemma_primary_consumes(tokens);
    if let Ok((lhs, rest)) = parse_primary(tokens) {
        lemma_operators_consume(lhs, rest, min_bp);
        if let Ok((_, last)) = parse_operators(lhs, rest, min_bp) {
            lemma_rest_of_trans(last, rest, tokens);
        }
    }
}

/// A parsed primary took at least one token, from the front and without gaps.
pub proof fn lemma_primary_consumes(tokens: Seq<Token>)
    ensures
        parse_primary(tokens) matches Ok((_, rest)) ==> rest.len() < tokens.len() && is_rest_of(
            rest,
            tokens,
        ),
    decreases tokens.len(), 1nat,
{
    match head(tokens) {
        Token::Atom(c) => {
            lemma_rest_of_self(tokens);
        },
        Token::Op(op) => {
            if op == '(' {
                lemma_expr_consumes(tail(tokens), 0);
                if let Ok((_, rest)) = parse_expr(tail(tokens), 0) {
                    lemma_rest_of_tail(rest, tokens);
                }
            } else if let Some(r_bp) = prefix_power(op) {
                lemma_expr_consumes(tail(tokens), r_bp);
                if let Ok((_, rest)) = parse_expr(tail(tokens), r_bp) {
                    lemma_rest_of_tail(rest, tokens);
                }
            }
        },
        Token::Eof => {},
    }
}

/// The operators after an operand took their tokens from the front and without gaps.
pub proof fn lemma_operators_consume(lhs: Tree, tokens: Seq<Token>, min_bp: nat)
    ensures
        parse_operators(lhs, tokens, min_bp) matches Ok((_, rest)) ==> is_rest_of(rest, tokens),
    decreases tokens.len(), 0nat,
{
    lemma_rest_of_self(tokens);
    match head(tokens) {
        Token::Op(op) => {
            if is_terminator(op) {
            } else if postfix_power(op) is Some {
                if postfix_power(op)->0 < min_bp {
                } else if op == '[' {
                    lemma_expr_consumes(tail(tokens), 0);
                    if let Ok((index, rest)) = parse_expr(tail(tokens), 0) {
                        lemma_rest_of_tail(rest, tokens);
                        if let Ok(rest) = expect(rest, ']') {
                            let node = Tree::Cons(op, seq![lhs, index]);
                            lemma_operators_consume(node, rest, min_bp);
                            if let Ok((_, last)) = parse_operators(node, rest, min_bp) {
                                lemma_rest_of_trans(last, rest, tokens);
                            }
                        }
                    }
                } else {
                    let node = Tree::Cons(op, seq![lhs]);
                    lemma_operators_consume(node, tail(tokens), min_bp);
                    if let Ok((_, last)) = parse_operators(node, tail(tokens), min_bp) {
                        lemma_rest_of_trans(last, tail(tokens), tokens);
                    }
                }
            } else if let Some((l_bp, r_bp)) = infix_power(op) {
                if l_bp < min_bp {
                } else if op == '?' {
                    lemma_expr_consumes(tail(tokens), 0);
                    if let Ok((mhs, rest)) = parse_expr(tail(tokens), 0) {
                        lemma_rest_of_tail(rest, tokens);
                        if let Ok(rest) = expect(rest, ':') {
                            lemma_expr_consumes(rest, r_bp);
                            if let Ok((rhs, rest2)) = parse_expr(rest, r_bp) {
                                lemma_rest_of_trans(rest2, rest, tokens);
                                let node = Tree::Cons(op, seq![lhs, mhs, rhs]);
                                lemma_operators_consume(node, rest2, min_bp);
                                if let Ok((_, last)) = parse_operators(node, rest2, min_bp) {
                                    lemma_rest_of_trans(last, rest2, tokens);
                                }
                            }
                        }
                    }
                } else {
                    lemma_expr_consumes(tail(tokens), r_bp);
                    if let Ok((rhs, rest)) = parse_expr(tail(tokens), r_bp) {
                        lemma_rest_of_tail(rest, tokens);
                        let node = Tree::Cons(op, seq![lhs, rhs]);
                        lemma_operators_consume(node, rest, min_bp);
                        if let Ok((_, last)) = parse_operators(node, rest, min_bp) {
                            lemma_rest_of_trans(last, rest, tokens);
                        }
                    }
                }
            }
        },
        _ => {},
    }
}

} // verus!
