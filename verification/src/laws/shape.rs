//! Shape: the nodes that the grammar builds.

use vstd::prelude::*;
use crate::grammar::{expect, is_terminator, parse_expr, parse_operators, parse_primary};
use crate::laws::progress::{lemma_expr_consumes, lemma_primary_consumes};
use crate::power::{infix_power, postfix_power, prefix_power};
use crate::token::{Token, head, tail};
use crate::tree::Tree;

verus! {

/// Whether the grammar builds a node of `op` over `arity` operands: one operand
/// under a prefix operator or `!`, two under `[` or an infix operator, three
/// under `?`.
pub open spec fn is_node(op: char, arity: nat) -> bool {
    ||| arity == 1 && (prefix_power(op) is Some || (postfix_power(op) is Some && op != '['))
    ||| arity == 2 && (op == '[' || (infix_power(op) is Some && op != '?'))
    ||| arity == 3 && op == '?'
}

/// Whether every operator node of `tree` is one that the grammar builds.
pub open spec fn well_formed(tree: Tree) -> bool
    decreases tree,
{
    match tree {
        Tree::Atom(_) => true,
        Tree::Cons(op, kids) => {
            &&& is_node(op, kids.len())
            &&& forall|i: int| 0 <= i < kids.len() ==> well_formed(#[trigger] kids[i])
        },
    }
}

/// The tree of a parsed expression is well formed: no node stands for a
/// parenthesis or another delimiter, and each has the operands of its operator.
pub proof fn lemma_expr_well_formed(tokens: Seq<Token>, min_bp: nat)
    ensures
        parse_expr(tokens, min_bp) matches Ok((tree, _)) ==> well_formed(tree),
    decreases tokens.len(), 2nat,
{
    lemma_primary_consumes(tokens);
    lemma_primary_well_formed(tokens);
    if let Ok((lhs, rest)) = parse_primary(tokens) {
        lemma_operators_well_formed(lhs, rest, min_bp);
    }
}

/// The tree of a parsed primary is well formed.
pub proof fn lemma_primary_well_formed(tokens: Seq<Token>)
    ensures
        parse_primary(tokens) matches Ok((tree, _)) ==> well_formed(tree),
    decreases tokens.len(), 1nat,
{
    if let Token::Op(op) = head(tokens) {
        if op == '(' {
            lemma_expr_well_formed(tail(tokens), 0);
        } else if let Some(r_bp) = prefix_power(op) {
            lemma_expr_well_formed(tail(tokens), r_bp);
        }
    }
}

/// Operators over a well-formed operand build a well-formed tree.
pub proof fn lemma_operators_well_formed(lhs: Tree, tokens: Seq<Token>, min_bp: nat)
    requires
        well_formed(lhs),
    ensures
        parse_operators(lhs, tokens, min_bp) matches Ok((tree, _)) ==> well_formed(tree),
    decreases tokens.len(), 0nat,
{
    if let Token::Op(op) = head(tokens) {
        if is_terminator(op) {
        } else if postfix_power(op) is Some {
            if postfix_power(op)->0 < min_bp {
            } else if op == '[' {
                lemma_expr_consumes(tail(tokens), 0);
                lemma_expr_well_formed(tail(tokens), 0);
                if let Ok((index, rest)) = parse_expr(tail(tokens), 0) {
                    if let Ok(rest) = expect(rest, ']') {
                        lemma_operators_well_formed(Tree::Cons(op, seq![lhs, index]), rest, min_bp);
                    }
                }
            } else {
                lemma_operators_well_formed(Tree::Cons(op, seq![lhs]), tail(tokens), min_bp);
            }
        } else if let Some((l_bp, r_bp)) = infix_power(op) {
            if l_bp < min_bp {
            } else if op == '?' {
                lemma_expr_consumes(tail(tokens), 0);
                lemma_expr_well_formed(tail(tokens), 0);
                if let Ok((mhs, rest)) = parse_expr(tail(tokens), 0) {
                    if let Ok(rest) = expect(rest, ':') {
                        lemma_expr_consumes(rest, r_bp);
                        lemma_expr_well_formed(rest, r_bp);
                        if let Ok((rhs, rest)) = parse_expr(rest, r_bp) {
                            lemma_operators_well_formed(
                                Tree::Cons(op, seq![lhs, mhs, rhs]),
                                rest,
                                min_bp,
                            );
                        }
                    }
                }
            } else {
                lemma_expr_consumes(tail(tokens), r_bp);
                lemma_expr_well_formed(tail(tokens), r_bp);
                if let Ok((rhs, rest)) = parse_expr(tail(tokens), r_bp) {
                    lemma_operators_well_formed(Tree::Cons(op, seq![lhs, rhs]), rest, min_bp);
                }
            }
        }
    }
}

} // verus!
