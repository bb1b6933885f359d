//! Context: what an expression denotes does not depend on what follows it,
//! and parentheses make a primary of any expression.

use vstd::prelude::*;
use crate::grammar::{expect, is_terminator, parse_expr, parse_operators, parse_primary, parsed};
use crate::laws::progress::{lemma_expr_consumes, lemma_primary_consumes};
use crate::power::{infix_power, postfix_power, prefix_power};
use crate::token::{Token, head, tail};
use crate::tree::Tree;

verus! {

/// Whether the operator loop stops in front of `extra` whatever it is asked to
/// take in: there is nothing, or a terminator comes first.
pub open spec fn stops_operators(extra: Seq<Token>) -> bool {
    match head(extra) {
        Token::Eof => true,
        Token::Op(op) => is_terminator(op),
        Token::Atom(_) => false,
    }
}

/// The first token of two sequences in a row is the first of the first one,
/// where that has any.
proof fn lemma_head_tail_add(tokens: Seq<Token>, extra: Seq<Token>)
    ensures
        tokens.len() > 0 ==> head(tokens + extra) == head(tokens) && tail(tokens + extra) == tail(
            tokens,
        ) + extra,
        tokens.len() == 0 ==> tokens + extra == extra,
{
}

/// What an expression denotes does not depend on what follows its terminator:
/// with `extra` behind the tokens, the same tree is parsed and `extra` is left over too.
pub proof fn lemma_expr_extends(tokens: Seq<Token>, extra: Seq<Token>, min_bp: nat)
    requires
        stops_operators(extra),
    ensures
        parse_expr(tokens, min_bp) matches Ok((tree, rest)) ==> parse_expr(tokens + extra, min_bp)
            == parsed(tree, rest + extra),
    decreases tokens.len(), 2nat,
{
    lemma_primary_consumes(tokens);
    lemma_primary_extends(tokens, extra);
    if let Ok((lhs, rest)) = parse_primary(tokens) {
        lemma_operators_extend(lhs, rest, extra, min_bp);
    }
}

/// What a primary denotes does not depend on what follows it.
pub proof fn lemma_primary_extends(tokens: Seq<Token>, extra: Seq<Token>)
    requires
        stops_operators(extra),
    ensures
        parse_primary(tokens) matches Ok((tree, rest)) ==> parse_primary(tokens + extra)
            == parsed(tree, rest + extra),
    decreases tokens.len(), 1nat,
{
    lemma_head_tail_add(tokens, extra);
    if let Token::Op(op) = head(tokens) {
        let r_bp = if op == '(' {
            0
        } else {
            prefix_power(op).unwrap_or(0)
        };
        if op == '(' || prefix_power(op) is Some {
            lemma_expr_extends(tail(tokens), extra, r_bp);
            if let Ok((_, rest)) = parse_expr(tail(tokens), r_bp) {
                lemma_head_tail_add(rest, extra);
            }
        }
    }
}

/// What the operators after an operand build does not depend on what follows
/// their terminator.
pub proof fn lemma_operators_extend(
    lhs: Tree,
    tokens: Seq<Token>,
    extra: Seq<Token>,
    min_bp: nat,
)
    requires
        stops_operators(extra),
    ensures
        parse_operators(lhs, tokens, min_bp) matches Ok((tree, rest)) ==> parse_operators(
            lhs,
            tokens + extra,
            min_bp,
        ) == parsed(tree, rest + extra),
    decreases tokens.len(), 0nat,
{
    lemma_head_tail_add(tokens, extra);
    if let Token::Op(op) = head(tokens) {
        if is_terminator(op) {
        } else if postfix_power(op) is Some {
            if postfix_power(op)->0 < min_bp {
            } else if op == '[' {
                lemma_expr_consumes(tail(tokens), 0);
                lemma_expr_extends(tail(tokens), extra, 0);
                if let Ok((index, rest)) = parse_expr(tail(tokens), 0) {
                    lemma_head_tail_add(rest, extra);
                    if let Ok(after) = expect(rest, ']') {
                        lemma_operators_extend(
                            Tree::Cons(op, seq![lhs, index]),
                            after,
                            extra,
                            min_bp,
                        );
                    }
                }
            } else {
                lemma_operators_extend(Tree::Cons(op, seq![lhs]), tail(tokens), extra, min_bp);
            }
        } else if let Some((l_bp, r_bp)) = infix_power(op) {
            if l_bp < min_bp {
            } else if op == '?' {
                lemma_expr_consumes(tail(tokens), 0);
                lemma_expr_extends(tail(tokens), extra, 0);
                if let Ok((mhs, rest)) = parse_expr(tail(tokens), 0) {
                    lemma_head_tail_add(rest, extra);
                    if let Ok(after) = expect(rest, ':') {
                        lemma_expr_consumes(after, r_bp);
                        lemma_expr_extends(after, extra, r_bp);
                        if let Ok((rhs, last)) = parse_expr(after, r_bp) {
                            lemma_operators_extend(
                                Tree::Cons(op, seq![lhs, mhs, rhs]),
                                last,
                                extra,
                                min_bp,
                            );
                        }
                    }
                }
            } else {
                lemma_expr_consumes(tail(tokens), r_bp);
                lemma_expr_extends(tail(tokens), extra, r_bp);
                if let Ok((rhs, rest)) = parse_expr(tail(tokens), r_bp) {
                    lemma_operators_extend(Tree::Cons(op, seq![lhs, rhs]), rest, extra, min_bp);
                }
            }
        }
    }
}

/// Grouping: where some tokens are an expression to their end, the same tokens
/// between parentheses are an expression of the same tree, at any binding power.
/// The parentheses leave no trace in the tree.
pub proof fn lemma_grouping(tokens: Seq<Token>, tree: Tree, min_bp: nat)
    requires
        parse_expr(tokens, 0) == parsed(tree, Seq::empty()),
    ensures
        parse_expr(seq![Token::Op('(')] + tokens + seq![Token::Op(')')], min_bp) == parsed(
            tree,
            Seq::empty(),
        ),
{
    let close = seq![Token::Op(')')];
    let grouped = seq![Token::Op('(')] + tokens + close;
    lemma_expr_extends(tokens, close, 0);
    assert(tail(grouped) == tokens + close);
    assert(Seq::<Token>::empty() + close == close);
    assert(tail(close) == Seq::<Token>::empty());
    assert(parse_primary(grouped) == parsed(tree, Seq::empty()));
}

} // verus!
