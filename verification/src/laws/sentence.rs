//! Sentences: every well-formed tree is the parse of the tokens that write it
//! out with each operand that is not a leaf between parentheses. With
//! `laws::shape`, the trees that the grammar builds are the well-formed ones,
//! and no others.

use vstd::prelude::*;
use crate::grammar::{ParseError, expect, parse_expr, parse_operators, parse_primary, parsed};
use crate::laws::context::stops_operators;
use crate::laws::shape::well_formed;
use crate::power::{infix_power, prefix_power};
use crate::token::{Token, head, tail};
use crate::tree::Tree;

verus! {

/// The tokens that write `tree` as an operand: a leaf as it is, any other tree
/// between parentheses.
pub open spec fn operand(tree: Tree) -> Seq<Token>
    decreases tree, 1nat,
{
    match tree {
        Tree::Atom(c) => seq![Token::Atom(c)],
        Tree::Cons(_, _) => seq![Token::Op('(')] + sentence(tree) + seq![Token::Op(')')],
    }
}

/// The tokens that write `tree` out: its operator in its place among the
/// operands, each of them written as an operand.
pub open spec fn sentence(tree: Tree) -> Seq<Token>
    decreases tree, 0nat,
{
    match tree {
        Tree::Atom(c) => seq![Token::Atom(c)],
        Tree::Cons(op, kids) => if kids.len() == 1 {
            if prefix_power(op) is Some {
                seq![Token::Op(op)] + operand(kids[0])
            } else {
                operand(kids[0]) + seq![Token::Op(op)]
            }
        } else if kids.len() == 2 {
            if op == '[' {
                operand(kids[0]) + seq![Token::Op(op)] + operand(kids[1]) + seq![Token::Op(']')]
            } else {
                operand(kids[0]) + seq![Token::Op(op)] + operand(kids[1])
            }
        } else if kids.len() == 3 {
            operand(kids[0]) + seq![Token::Op(op)] + operand(kids[1]) + seq![Token::Op(':')]
                + operand(kids[2])
        } else {
            Seq::empty()
        },
    }
}

/// A token put in front is the first, and what it was put in front of follows.
proof fn lemma_front(first: Token, rest: Seq<Token>)
    ensures
        head(seq![first] + rest) == first,
        tail(seq![first] + rest) == rest,
        rest.len() < (seq![first] + rest).len(),
{
}

/// In front of `extra`, the operator loop hands `lhs` back and takes nothing.
proof fn lemma_stop(lhs: Tree, extra: Seq<Token>, min_bp: nat)
    requires
        stops_operators(extra),
    ensures
        parse_operators(lhs, extra, min_bp) == parsed(lhs, extra),
{
}

/// A well-formed tree written as an operand is a primary, whatever follows it.
pub proof fn lemma_operand_is_primary(tree: Tree, rest: Seq<Token>)
    requires
        well_formed(tree),
    ensures
        parse_primary(operand(tree) + rest) == parsed(tree, rest),
        rest.len() < (operand(tree) + rest).len(),
    decreases tree, 2nat,
{
    match tree {
        Tree::Atom(c) => {
            lemma_front(Token::Atom(c), rest);
        },
        Tree::Cons(_, _) => {
            let close = seq![Token::Op(')')] + rest;
            lemma_sentence_is_expression(tree, close);
            lemma_front(Token::Op(')'), rest);
            lemma_front(Token::Op('('), sentence(tree) + close);
            assert(operand(tree) + rest == seq![Token::Op('(')] + (sentence(tree) + close));
        },
    }
}

/// A well-formed tree written as an operand is an expression at any binding
/// power, where a terminator or nothing follows it.
pub proof fn lemma_operand_is_expression(tree: Tree, extra: Seq<Token>, min_bp: nat)
    requires
        well_formed(tree),
        stops_operators(extra),
    ensures
        parse_expr(operand(tree) + extra, min_bp) == parsed(tree, extra),
    decreases tree, 3nat,
{
    lemma_operand_is_primary(tree, extra);
    lemma_stop(tree, extra, min_bp);
}

/// The parser undoes the writing: the sentence of a well-formed tree, with a
/// terminator or nothing behind it, is an expression of that tree, and what is
/// behind it is left.
pub proof fn lemma_sentence_is_expression(tree: Tree, extra: Seq<Token>)
    requires
        well_formed(tree),
        stops_operators(extra),
    ensures
        parse_expr(sentence(tree) + extra, 0) == parsed(tree, extra),
    decreases tree, 1nat,
{
    match tree {
        Tree::Atom(c) => {
            lemma_front(Token::Atom(c), extra);
        },
        Tree::Cons(op, kids) => {
            if kids.len() == 1 && prefix_power(op) is Some {
                lemma_prefix_sentence(tree, extra);
            } else if kids.len() == 1 {
                lemma_postfix_sentence(tree, extra);
            } else if kids.len() == 2 && op == '[' {
                lemma_index_sentence(tree, extra);
            } else if kids.len() == 2 {
                lemma_infix_sentence(tree, extra);
            } else {
                lemma_conditional_sentence(tree, extra);
            }
        },
    }
    lemma_stop(tree, extra, 0);
}

/// The sentence of a prefix operator's node is a primary.
proof fn lemma_prefix_sentence(tree: Tree, extra: Seq<Token>)
    requires
        well_formed(tree),
        stops_operators(extra),
        tree matches Tree::Cons(op, kids) && kids.len() == 1 && prefix_power(op) is Some,
    ensures
        parse_expr(sentence(tree) + extra, 0) == parse_operators(tree, extra, 0),
    decreases tree, 0nat,
{
    let op = tree->Cons_0;
    let kids = tree->Cons_1;
    let first = kids[0];
    let inner = operand(first) + extra;
    assert(well_formed(first));
    assert(kids == seq![first]);
    lemma_operand_is_primary(first, extra);
    lemma_operand_is_expression(first, extra, prefix_power(op).unwrap());
    lemma_front(Token::Op(op), inner);
    assert(sentence(tree) + extra == seq![Token::Op(op)] + inner);
    assert(parse_primary(seq![Token::Op(op)] + inner) == parsed(tree, extra));
}

/// The sentence of a postfix operator's node: the operand, then the operator.
proof fn lemma_postfix_sentence(tree: Tree, extra: Seq<Token>)
    requires
        well_formed(tree),
        stops_operators(extra),
        tree matches Tree::Cons(op, kids) && kids.len() == 1 && prefix_power(op) is None,
    ensures
        parse_expr(sentence(tree) + extra, 0) == parse_operators(tree, extra, 0),
    decreases tree, 0nat,
{
    let op = tree->Cons_0;
    let kids = tree->Cons_1;
    let first = kids[0];
    let after = seq![Token::Op(op)] + extra;
    assert(well_formed(first));
    assert(kids == seq![first]);
    lemma_operand_is_primary(first, after);
    lemma_front(Token::Op(op), extra);
    assert(sentence(tree) + extra == operand(first) + after);
    assert(parse_operators(first, after, 0) == parse_operators(tree, extra, 0));
}

/// The sentence of an index: the operand, then the index between brackets.
proof fn lemma_index_sentence(tree: Tree, extra: Seq<Token>)
    requires
        well_formed(tree),
        stops_operators(extra),
        tree matches Tree::Cons(op, kids) && kids.len() == 2 && op == '[',
    ensures
        parse_expr(sentence(tree) + extra, 0) == parse_operators(tree, extra, 0),
    decreases tree, 0nat,
{
    let kids = tree->Cons_1;
    let (first, index) = (kids[0], kids[1]);
    let close = seq![Token::Op(']')] + extra;
    let inner = operand(index) + close;
    let after = seq![Token::Op('[')] + inner;
    assert(well_formed(first) && well_formed(index));
    assert(kids == seq![first, index]);
    lemma_operand_is_primary(first, after);
    lemma_front(Token::Op('['), inner);
    lemma_operand_is_primary(index, close);
    lemma_operand_is_expression(index, close, 0);
    lemma_front(Token::Op(']'), extra);
    assert(sentence(tree) + extra == operand(first) + after);
    assert(expect(close, ']') == Ok::<Seq<Token>, ParseError>(extra));
    assert(parse_operators(first, after, 0) == parse_operators(tree, extra, 0));
}

/// The sentence of an infix operator's node: the operator between its operands.
proof fn lemma_infix_sentence(tree: Tree, extra: Seq<Token>)
    requires
        well_formed(tree),
        stops_operators(extra),
        tree matches Tree::Cons(op, kids) && kids.len() == 2 && op != '[',
    ensures
        parse_expr(sentence(tree) + extra, 0) == parse_operators(tree, extra, 0),
    decreases tree, 0nat,
{
    let op = tree->Cons_0;
    let kids = tree->Cons_1;
    let (first, second) = (kids[0], kids[1]);
    let inner = operand(second) + extra;
    let after = seq![Token::Op(op)] + inner;
    assert(well_formed(first) && well_formed(second));
    assert(kids == seq![first, second]);
    lemma_operand_is_primary(first, after);
    lemma_front(Token::Op(op), inner);
    lemma_operand_is_primary(second, extra);
    lemma_operand_is_expression(second, extra, infix_power(op).unwrap().1);
    assert(sentence(tree) + extra == operand(first) + after);
    assert(parse_operators(first, after, 0) == parse_operators(tree, extra, 0));
}

/// The sentence of a conditional: `?` and `:` between its three operands.
proof fn lemma_conditional_sentence(tree: Tree, extra: Seq<Token>)
    requires
        well_formed(tree),
        stops_operators(extra),
        tree matches Tree::Cons(op, kids) && kids.len() == 3,
    ensures
        parse_expr(sentence(tree) + extra, 0) == parse_operators(tree, extra, 0),
    decreases tree, 0nat,
{
    let kids = tree->Cons_1;
    let (first, second, third) = (kids[0], kids[1], kids[2]);
    let last = operand(third) + extra;
    let colon = seq![Token::Op(':')] + last;
    let inner = operand(second) + colon;
    let after = seq![Token::Op('?')] + inner;
    assert(well_formed(first) && well_formed(second) && well_formed(third));
    assert(kids == seq![first, second, third]);
    lemma_operand_is_primary(first, after);
    lemma_front(Token::Op('?'), inner);
    lemma_operand_is_primary(second, colon);
    lemma_operand_is_expression(second, colon, 0);
    lemma_front(Token::Op(':'), last);
    lemma_operand_is_primary(third, extra);
    lemma_operand_is_expression(third, extra, 9);
    assert(sentence(tree) + extra == operand(first) + after);
    assert(expect(colon, ':') == Ok::<Seq<Token>, ParseError>(last));
    assert(parse_expr(inner, 0) == parsed(second, colon));
    assert(parse_expr(last, 9) == parsed(third, extra));
    assert(parse_operators(first, after, 0) == parse_operators(tree, extra, 0));
}

/// Every well-formed tree is the parse of its sentence.
pub proof fn lemma_well_formed_trees_are_parsed(tree: Tree)
    requires
        well_formed(tree),
    ensures
        parse_expr(sentence(tree), 0) == parsed(tree, Seq::empty()),
{
    lemma_sentence_is_expression(tree, Seq::empty());
    assert(sentence(tree) + Seq::<Token>::empty() == sentence(tree));
}

} // verus!
