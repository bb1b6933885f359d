//! Spelling: a tree holds the tokens it was parsed from, in their order.

use vstd::prelude::*;
use crate::grammar::{expect, is_terminator, parse_expr, parse_operators, parse_primary};
use crate::laws::progress::{
    is_rest_of, lemma_expr_consumes, lemma_operators_consume, lemma_primary_consumes,
    lemma_rest_of_self, lemma_rest_of_tail, lemma_rest_of_trans,
};
use crate::power::{infix_power, postfix_power, prefix_power};
use crate::token::{Token, head, tail};
use crate::tree::Tree;

verus! {

/// The tokens that spell `tree` without parentheses: the operands in their
/// order, a prefix operator before its operand, `!` after it, an infix operator
/// between its two, `[` and `]` around an index, `?` and `:` between the three
/// branches of a conditional.
pub open spec fn spelling(tree: Tree) -> Seq<Token>
    decreases tree,
{
    match tree {
        Tree::Atom(c) => seq![Token::Atom(c)],
        Tree::Cons(op, kids) => if kids.len() == 1 {
            if prefix_power(op) is Some {
                seq![Token::Op(op)] + spelling(kids[0])
            } else {
                spelling(kids[0]) + seq![Token::Op(op)]
            }
        } else if kids.len() == 2 {
            if op == '[' {
                spelling(kids[0]) + seq![Token::Op(op)] + spelling(kids[1]) + seq![Token::Op(']')]
            } else {
                spelling(kids[0]) + seq![Token::Op(op)] + spelling(kids[1])
            }
        } else if kids.len() == 3 {
            spelling(kids[0]) + seq![Token::Op(op)] + spelling(kids[1]) + seq![Token::Op(':')]
                + spelling(kids[2])
        } else {
            Seq::empty()
        },
    }
}

/// Whether `token` is a parenthesis.
pub open spec fn is_parenthesis(token: Token) -> bool {
    token == Token::Op('(') || token == Token::Op(')')
}

/// `tokens` without the parentheses.
pub open spec fn ungrouped(tokens: Seq<Token>) -> Seq<Token> {
    tokens.filter(|token: Token| !is_parenthesis(token))
}

/// The tokens at the front of `tokens` that are no longer in `rest`.
pub open spec fn consumed(tokens: Seq<Token>, rest: Seq<Token>) -> Seq<Token> {
    tokens.take(tokens.len() - rest.len())
}

/// One token without the parentheses is itself, or nothing if it is one.
proof fn lemma_ungrouped_one(token: Token)
    ensures
        ungrouped(seq![token]) == if is_parenthesis(token) {
            Seq::<Token>::empty()
        } else {
            seq![token]
        },
        ungrouped(Seq::<Token>::empty()) == Seq::<Token>::empty(),
{
    reveal_with_fuel(Seq::filter, 2);
    assert(seq![token].drop_last() == Seq::<Token>::empty());
}

/// Taking out the parentheses goes through concatenation.
proof fn lemma_ungrouped_add(a: Seq<Token>, b: Seq<Token>)
    ensures
        ungrouped(a + b) == ungrouped(a) + ungrouped(b),
{
    Seq::filter_distributes_over_add(a, b, |token: Token| !is_parenthesis(token));
}

/// Nothing is consumed where all is left, and the first token where the rest
/// is left.
proof fn lemma_consumed_first(tokens: Seq<Token>)
    ensures
        consumed(tokens, tokens) == Seq::<Token>::empty(),
        tokens.len() > 0 ==> consumed(tokens, tail(tokens)) == seq![tokens[0]],
{
}

/// What is consumed in two steps is what the first step consumed and then
/// what the second did.
proof fn lemma_consumed_split(a: Seq<Token>, b: Seq<Token>, c: Seq<Token>)
    requires
        is_rest_of(b, a),
        is_rest_of(c, b),
    ensures
        consumed(a, c) == consumed(a, b) + consumed(b, c),
{
}

/// The tree of a parsed expression is spelt by the tokens that the parse took,
/// parentheses apart: none is lost, none invented, and their order is kept.
pub proof fn lemma_expr_spelling(tokens: Seq<Token>, min_bp: nat)
    ensures
        parse_expr(tokens, min_bp) matches Ok((tree, rest)) ==> spelling(tree) == ungrouped(
            consumed(tokens, rest),
        ),
    decreases tokens.len(), 3nat,
{
    lemma_primary_consumes(tokens);
    lemma_primary_spelling(tokens);
    if let Ok((lhs, rest)) = parse_primary(tokens) {
        lemma_operators_consume(lhs, rest, min_bp);
        lemma_operators_spelling(lhs, rest, min_bp);
        if let Ok((_, last)) = parse_operators(lhs, rest, min_bp) {
            lemma_consumed_split(tokens, rest, last);
            lemma_ungrouped_add(consumed(tokens, rest), consumed(rest, last));
        }
    }
}

/// The tree of a parsed primary is spelt by the tokens that the parse took,
/// parentheses apart.
pub proof fn lemma_primary_spelling(tokens: Seq<Token>)
    ensures
        parse_primary(tokens) matches Ok((tree, rest)) ==> spelling(tree) == ungrouped(
            consumed(tokens, rest),
        ),
    decreases tokens.len(), 2nat,
{
    lemma_consumed_first(tokens);
    lemma_ungrouped_one(head(tokens));
    match head(tokens) {
        Token::Op(op) => {
            let r_bp = if op == '(' {
                0
            } else {
                prefix_power(op).unwrap_or(0)
            };
            if op == '(' || prefix_power(op) is Some {
                lemma_expr_consumes(tail(tokens), r_bp);
                lemma_expr_spelling(tail(tokens), r_bp);
                if let Ok((inner, rest)) = parse_expr(tail(tokens), r_bp) {
                    if op != '(' {
                        lemma_spelling_after(tokens, rest);
                    } else if expect(rest, ')') is Ok {
                        lemma_spelling_between(tokens, rest, tail(rest));
                        lemma_ungrouped_one(rest[0]);
                    }
                }
            }
        },
        _ => {},
    }
}

/// The tree that operators build over an operand is spelt by the operand's
/// spelling and then the tokens that the operators took, parentheses apart.
pub proof fn lemma_operators_spelling(lhs: Tree, tokens: Seq<Token>, min_bp: nat)
    ensures
        parse_operators(lhs, tokens, min_bp) matches Ok((tree, rest)) ==> spelling(tree)
            == spelling(lhs) + ungrouped(consumed(tokens, rest)),
    decreases tokens.len(), 1nat,
{
    if let Token::Op(op) = head(tokens) {
        if is_terminator(op) {
            lemma_nothing_consumed(lhs, tokens);
        } else if postfix_power(op) is Some {
            if postfix_power(op)->0 < min_bp {
                lemma_nothing_consumed(lhs, tokens);
            } else if op == '[' {
                lemma_expr_consumes(tail(tokens), 0);
                lemma_expr_spelling(tail(tokens), 0);
                if let Ok((index, rest)) = parse_expr(tail(tokens), 0) {
                    if let Ok(after) = expect(rest, ']') {
                        lemma_index_node(lhs, index, tokens, rest);
                        lemma_operators_step(
                            lhs,
                            Tree::Cons(op, seq![lhs, index]),
                            tokens,
                            after,
                            min_bp,
                        );
                    }
                }
            } else {
                lemma_postfix_node(lhs, op, tokens);
                lemma_operators_step(lhs, Tree::Cons(op, seq![lhs]), tokens, tail(tokens), min_bp);
            }
        } else if let Some((l_bp, r_bp)) = infix_power(op) {
            if l_bp < min_bp {
                lemma_nothing_consumed(lhs, tokens);
            } else if op == '?' {
                lemma_expr_consumes(tail(tokens), 0);
                lemma_expr_spelling(tail(tokens), 0);
                if let Ok((mhs, rest)) = parse_expr(tail(tokens), 0) {
                    if let Ok(after) = expect(rest, ':') {
                        lemma_expr_consumes(after, r_bp);
                        lemma_expr_spelling(after, r_bp);
                        if let Ok((rhs, last)) = parse_expr(after, r_bp) {
                            lemma_conditional_node(lhs, mhs, rhs, tokens, rest, last);
                            lemma_operators_step(
                                lhs,
                                Tree::Cons(op, seq![lhs, mhs, rhs]),
                                tokens,
                                last,
                                min_bp,
                            );
                        }
                    }
                }
            } else {
                lemma_expr_consumes(tail(tokens), r_bp);
                lemma_expr_spelling(tail(tokens), r_bp);
                if let Ok((rhs, rest)) = parse_expr(tail(tokens), r_bp) {
                    lemma_binary_node(lhs, rhs, op, tokens, rest);
                    lemma_operators_step(
                        lhs,
                        Tree::Cons(op, seq![lhs, rhs]),
                        tokens,
                        rest,
                        min_bp,
                    );
                }
            }
        }
    } else {
        lemma_nothing_consumed(lhs, tokens);
    }
}

/// Where the operator loop stops at once, the operand is the tree.
proof fn lemma_nothing_consumed(lhs: Tree, tokens: Seq<Token>)
    ensures
        spelling(lhs) == spelling(lhs) + ungrouped(consumed(tokens, tokens)),
{
    lemma_consumed_first(tokens);
    lemma_ungrouped_one(head(tokens));
}

/// The node of `!` over `lhs` is spelt by `lhs` and the operator.
proof fn lemma_postfix_node(lhs: Tree, op: char, tokens: Seq<Token>)
    requires
        head(tokens) == Token::Op(op),
        postfix_power(op) is Some,
        op != '[',
    ensures
        is_rest_of(tail(tokens), tokens),
        tail(tokens).len() < tokens.len(),
        spelling(Tree::Cons(op, seq![lhs])) == spelling(lhs) + ungrouped(
            consumed(tokens, tail(tokens)),
        ),
{
    lemma_rest_of_self(tokens);
    lemma_consumed_first(tokens);
    lemma_ungrouped_one(head(tokens));
}

/// The node of an infix operator over `lhs` and `rhs` is spelt by `lhs`, the
/// operator and the tokens of `rhs`.
proof fn lemma_binary_node(lhs: Tree, rhs: Tree, op: char, tokens: Seq<Token>, rest: Seq<Token>)
    requires
        head(tokens) == Token::Op(op),
        infix_power(op) is Some,
        op != '?',
        is_rest_of(rest, tail(tokens)),
        spelling(rhs) == ungrouped(consumed(tail(tokens), rest)),
    ensures
        is_rest_of(rest, tokens),
        rest.len() < tokens.len(),
        spelling(Tree::Cons(op, seq![lhs, rhs])) == spelling(lhs) + ungrouped(
            consumed(tokens, rest),
        ),
{
    lemma_spelling_after(tokens, rest);
    lemma_ungrouped_one(head(tokens));
    assert(spelling(Tree::Cons(op, seq![lhs, rhs])) == spelling(lhs) + (seq![Token::Op(op)]
        + spelling(rhs)));
}

/// The node of `[` over `lhs` and `index` is spelt by `lhs`, the bracket, the
/// tokens of `index` and the closing bracket.
proof fn lemma_index_node(lhs: Tree, index: Tree, tokens: Seq<Token>, rest: Seq<Token>)
    requires
        head(tokens) == Token::Op('['),
        is_rest_of(rest, tail(tokens)),
        head(rest) == Token::Op(']'),
        spelling(index) == ungrouped(consumed(tail(tokens), rest)),
    ensures
        is_rest_of(tail(rest), tokens),
        tail(rest).len() < tokens.len(),
        spelling(Tree::Cons('[', seq![lhs, index])) == spelling(lhs) + ungrouped(
            consumed(tokens, tail(rest)),
        ),
{
    lemma_spelling_between(tokens, rest, tail(rest));
    lemma_ungrouped_one(head(tokens));
    lemma_ungrouped_one(head(rest));
    assert(spelling(Tree::Cons('[', seq![lhs, index])) == spelling(lhs) + (seq![Token::Op('[')]
        + spelling(index) + seq![Token::Op(']')]));
}

/// The node of `?` over its three operands is spelt by `lhs`, the operator,
/// the tokens of `mhs`, the colon and the tokens of `rhs`.
proof fn lemma_conditional_node(
    lhs: Tree,
    mhs: Tree,
    rhs: Tree,
    tokens: Seq<Token>,
    rest: Seq<Token>,
    last: Seq<Token>,
)
    requires
        head(tokens) == Token::Op('?'),
        is_rest_of(rest, tail(tokens)),
        head(rest) == Token::Op(':'),
        is_rest_of(last, tail(rest)),
        spelling(mhs) == ungrouped(consumed(tail(tokens), rest)),
        spelling(rhs) == ungrouped(consumed(tail(rest), last)),
    ensures
        is_rest_of(last, tokens),
        last.len() < tokens.len(),
        spelling(Tree::Cons('?', seq![lhs, mhs, rhs])) == spelling(lhs) + ungrouped(
            consumed(tokens, last),
        ),
{
    let after = tail(rest);
    lemma_spelling_between(tokens, rest, after);
    lemma_ungrouped_one(head(tokens));
    lemma_ungrouped_one(head(rest));
    lemma_rest_of_trans(last, after, tokens);
    lemma_consumed_split(tokens, after, last);
    lemma_ungrouped_add(consumed(tokens, after), consumed(after, last));
    assert(spelling(Tree::Cons('?', seq![lhs, mhs, rhs])) == spelling(lhs) + ((seq![
        Token::Op('?'),
    ] + spelling(mhs) + seq![Token::Op(':')]) + spelling(rhs)));
}

/// The tokens from the first of `tokens` to `rest`: the first, then those from
/// the second to `rest`.
proof fn lemma_spelling_after(tokens: Seq<Token>, rest: Seq<Token>)
    requires
        tokens.len() > 0,
        is_rest_of(rest, tail(tokens)),
    ensures
        is_rest_of(rest, tokens),
        rest.len() < tokens.len(),
        ungrouped(consumed(tokens, rest)) == ungrouped(seq![tokens[0]]) + ungrouped(
            consumed(tail(tokens), rest),
        ),
{
    lemma_rest_of_self(tokens);
    lemma_rest_of_tail(rest, tokens);
    lemma_consumed_first(tokens);
    lemma_consumed_split(tokens, tail(tokens), rest);
    lemma_ungrouped_add(seq![tokens[0]], consumed(tail(tokens), rest));
}

/// The tokens from the first of `tokens` to behind the first of `rest`: the
/// first, then those from the second to `rest`, then the first of `rest`.
proof fn lemma_spelling_between(tokens: Seq<Token>, rest: Seq<Token>, after: Seq<Token>)
    requires
        tokens.len() > 0,
        is_rest_of(rest, tail(tokens)),
        rest.len() > 0,
        after == tail(rest),
    ensures
        is_rest_of(after, tokens),
        after.len() < tokens.len(),
        ungrouped(consumed(tokens, after)) == ungrouped(seq![tokens[0]]) + ungrouped(
            consumed(tail(tokens), rest),
        ) + ungrouped(seq![rest[0]]),
{
    lemma_spelling_after(tokens, rest);
    lemma_rest_of_tail(rest, tokens);
    lemma_consumed_first(rest);
    lemma_consumed_split(tokens, rest, after);
    lemma_ungrouped_add(consumed(tokens, rest), seq![rest[0]]);
}

/// One turn of the operator loop: `node` stands for `lhs` and the tokens
/// between `tokens` and `rest`, and the loop goes on from `rest`.
proof fn lemma_operators_step(
    lhs: Tree,
    node: Tree,
    tokens: Seq<Token>,
    rest: Seq<Token>,
    min_bp: nat,
)
    requires
        is_rest_of(rest, tokens),
        rest.len() < tokens.len(),
        spelling(node) == spelling(lhs) + ungrouped(consumed(tokens, rest)),
    ensures
        parse_operators(node, rest, min_bp) matches Ok((tree, last)) ==> spelling(tree)
            == spelling(lhs) + ungrouped(consumed(tokens, last)),
    decreases tokens.len(), 0nat,
{
    lemma_operators_consume(node, rest, min_bp);
    lemma_operators_spelling(node, rest, min_bp);
    if let Ok((tree, last)) = parse_operators(node, rest, min_bp) {
        lemma_consumed_split(tokens, rest, last);
        lemma_ungrouped_add(consumed(tokens, rest), consumed(rest, last));
        assert(spelling(tree) == spelling(lhs) + (ungrouped(consumed(tokens, rest)) + ungrouped(
            consumed(rest, last),
        )));
    }
}

} // verus!
