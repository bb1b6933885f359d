//! Precedence and associativity on the shortest sentences that show them.

use vstd::prelude::*;
use crate::grammar::{parse_expr, parse_operators, parse_primary, parsed};
use crate::power::{infix_power, postfix_power, prefix_power};
use crate::token::{Token, head, tail};
use crate::tree::Tree;

verus! {

/// Whether `op` is an infix operator between two operands.
pub open spec fn is_binary(op: char) -> bool {
    infix_power(op) is Some && op != '?'
}

/// Whether, after the infix operator `first` and its right operand, the
/// infix operator `second` takes that operand for its left one.
pub open spec fn takes_operand_from(second: char, first: char) -> bool {
    match (infix_power(first), infix_power(second)) {
        (Some(first), Some(second)) => second.0 >= first.1,
        _ => false,
    }
}

/// Whether the infix operator `infix` takes the operand of the prefix operator
/// `prefix` for its left one, so that the prefix operator applies to its node.
pub open spec fn binds_into_prefix(infix: char, prefix: char) -> bool {
    match (prefix_power(prefix), infix_power(infix)) {
        (Some(right), Some(powers)) => powers.0 >= right,
        _ => false,
    }
}

/// A token put in front is the first, and what it was put in front of follows.
proof fn lemma_first_token(first: Token, rest: Seq<Token>)
    ensures
        head(seq![first] + rest) == first,
        tail(seq![first] + rest) == rest,
        (seq![first] + rest).len() == rest.len() + 1,
{
}

/// An atom is a primary, whatever follows it.
proof fn lemma_atom_first(c: char, rest: Seq<Token>, min_bp: nat)
    ensures
        parse_expr(seq![Token::Atom(c)] + rest, min_bp) == parse_operators(
            Tree::Atom(c),
            rest,
            min_bp,
        ),
{
    lemma_first_token(Token::Atom(c), rest);
    assert(parse_primary(seq![Token::Atom(c)] + rest) == parsed(Tree::Atom(c), rest));
}

/// Precedence and associativity: of two infix operators in a row, the second
/// takes the operand between them exactly if its left binding power is not
/// below the right binding power of the first. So `1 * 2 + 3` groups to the
/// left, as `1 + 2 + 3` does, and `f . g . h` groups to the right.
pub proof fn lemma_two_infix_operators(a: char, p: char, b: char, q: char, c: char)
    requires
        is_binary(p),
        is_binary(q),
    ensures
        parse_expr(
            seq![Token::Atom(a), Token::Op(p), Token::Atom(b), Token::Op(q), Token::Atom(c)],
            0,
        ) == parsed(
            if takes_operand_from(q, p) {
                Tree::Cons(
                    p,
                    seq![Tree::Atom(a), Tree::Cons(q, seq![Tree::Atom(b), Tree::Atom(c)])],
                )
            } else {
                Tree::Cons(
                    q,
                    seq![Tree::Cons(p, seq![Tree::Atom(a), Tree::Atom(b)]), Tree::Atom(c)],
                )
            },
            Seq::empty(),
        ),
{
    let none = Seq::<Token>::empty();
    let t4 = seq![Token::Atom(c)] + none;
    let t3 = seq![Token::Op(q)] + t4;
    let t2 = seq![Token::Atom(b)] + t3;
    let t1 = seq![Token::Op(p)] + t2;
    let t0 = seq![Token::Atom(a)] + t1;
    assert(t0 == seq![
        Token::Atom(a),
        Token::Op(p),
        Token::Atom(b),
        Token::Op(q),
        Token::Atom(c),
    ]);
    let (l_p, r_p) = infix_power(p)->0;
    let (l_q, r_q) = infix_power(q)->0;
    let (ta, tb, tc) = (Tree::Atom(a), Tree::Atom(b), Tree::Atom(c));
    lemma_first_token(Token::Op(q), t4);
    lemma_first_token(Token::Op(p), t2);
    lemma_atom_first(a, t1, 0);
    lemma_atom_first(b, t3, r_p);
    lemma_atom_first(c, none, r_q);
    assert(parse_expr(t4, r_q) == parsed(tc, none));
    if l_q < r_p {
        let left = Tree::Cons(p, seq![ta, tb]);
        assert(parse_expr(t2, r_p) == parsed(tb, t3));
        assert(parse_operators(ta, t1, 0) == parse_operators(left, t3, 0));
        let whole = Tree::Cons(q, seq![left, tc]);
        assert(parse_operators(left, t3, 0) == parse_operators(whole, none, 0));
    } else {
        let right = Tree::Cons(q, seq![tb, tc]);
        assert(parse_operators(tb, t3, r_p) == parse_operators(right, none, r_p));
        assert(parse_expr(t2, r_p) == parsed(right, none));
        let whole = Tree::Cons(p, seq![ta, right]);
        assert(parse_operators(ta, t1, 0) == parse_operators(whole, none, 0));
    }
}

/// A prefix operator and an infix operator around one operand: the infix
/// operator takes the operand exactly if its left binding power is not below
/// the binding power of the prefix operator. So `- 3 + 2` negates `3` alone, and
/// `- f . g` negates the composition.
pub proof fn lemma_prefix_then_infix(p: char, a: char, q: char, b: char)
    requires
        prefix_power(p) is Some,
        is_binary(q),
    ensures
        parse_expr(seq![Token::Op(p), Token::Atom(a), Token::Op(q), Token::Atom(b)], 0) == parsed(
            if binds_into_prefix(q, p) {
                Tree::Cons(p, seq![Tree::Cons(q, seq![Tree::Atom(a), Tree::Atom(b)])])
            } else {
                Tree::Cons(q, seq![Tree::Cons(p, seq![Tree::Atom(a)]), Tree::Atom(b)])
            },
            Seq::empty(),
        ),
{
    let none = Seq::<Token>::empty();
    let t3 = seq![Token::Atom(b)] + none;
    let t2 = seq![Token::Op(q)] + t3;
    let t1 = seq![Token::Atom(a)] + t2;
    let t0 = seq![Token::Op(p)] + t1;
    assert(t0 == seq![Token::Op(p), Token::Atom(a), Token::Op(q), Token::Atom(b)]);
    let r_p = prefix_power(p)->0;
    let (l_q, r_q) = infix_power(q)->0;
    let (ta, tb) = (Tree::Atom(a), Tree::Atom(b));
    lemma_first_token(Token::Op(p), t1);
    lemma_first_token(Token::Op(q), t3);
    lemma_atom_first(a, t2, r_p);
    lemma_atom_first(b, none, r_q);
    assert(parse_expr(t3, r_q) == parsed(tb, none));
    if l_q >= r_p {
        let inner = Tree::Cons(q, seq![ta, tb]);
        assert(parse_operators(ta, t2, r_p) == parse_operators(inner, none, r_p));
        assert(parse_expr(t1, r_p) == parsed(inner, none));
        let whole = Tree::Cons(p, seq![inner]);
        assert(parse_primary(t0) == parsed(whole, none));
        assert(parse_expr(t0, 0) == parse_operators(whole, none, 0));
    } else {
        let inner = Tree::Cons(p, seq![ta]);
        assert(parse_expr(t1, r_p) == parsed(ta, t2));
        assert(parse_primary(t0) == parsed(inner, t2));
        assert(parse_expr(t0, 0) == parse_operators(inner, t2, 0));
        let whole = Tree::Cons(q, seq![inner, tb]);
        assert(parse_operators(inner, t2, 0) == parse_operators(whole, none, 0));
    }
}

/// Postfix operators fold from the left: the second applies to the first's node.
pub proof fn lemma_two_postfix_operators(a: char, p: char, q: char)
    requires
        postfix_power(p) is Some,
        postfix_power(q) is Some,
        p != '[',
        q != '[',
    ensures
        parse_expr(seq![Token::Atom(a), Token::Op(p), Token::Op(q)], 0) == parsed(
            Tree::Cons(q, seq![Tree::Cons(p, seq![Tree::Atom(a)])]),
            Seq::empty(),
        ),
{
    let none = Seq::<Token>::empty();
    let t2 = seq![Token::Op(q)] + none;
    let t1 = seq![Token::Op(p)] + t2;
    let t0 = seq![Token::Atom(a)] + t1;
    assert(t0 == seq![Token::Atom(a), Token::Op(p), Token::Op(q)]);
    lemma_first_token(Token::Op(p), t2);
    lemma_first_token(Token::Op(q), none);
    lemma_atom_first(a, t1, 0);
    let once = Tree::Cons(p, seq![Tree::Atom(a)]);
    let twice = Tree::Cons(q, seq![once]);
    assert(parse_operators(Tree::Atom(a), t1, 0) == parse_operators(once, t2, 0));
    assert(parse_operators(once, t2, 0) == parse_operators(twice, none, 0));
}

/// Indexing is a node of `[` over the indexed operand and the index.
pub proof fn lemma_index(a: char, i: char)
    ensures
        parse_expr(seq![Token::Atom(a), Token::Op('['), Token::Atom(i), Token::Op(']')], 0)
            == parsed(Tree::Cons('[', seq![Tree::Atom(a), Tree::Atom(i)]), Seq::<Token>::empty()),
{
    let none = Seq::<Token>::empty();
    let t3 = seq![Token::Op(']')] + none;
    let t2 = seq![Token::Atom(i)] + t3;
    let t1 = seq![Token::Op('[')] + t2;
    let t0 = seq![Token::Atom(a)] + t1;
    assert(t0 == seq![Token::Atom(a), Token::Op('['), Token::Atom(i), Token::Op(']')]);
    lemma_first_token(Token::Op(']'), none);
    lemma_first_token(Token::Op('['), t2);
    lemma_atom_first(a, t1, 0);
    lemma_atom_first(i, t3, 0);
    assert(parse_expr(t2, 0) == parsed(Tree::Atom(i), t3));
    let node = Tree::Cons('[', seq![Tree::Atom(a), Tree::Atom(i)]);
    assert(parse_operators(Tree::Atom(a), t1, 0) == parse_operators(node, none, 0));
}

/// A conditional has three operands, and a conditional in its last branch
/// belongs to that branch: `a ? b : c ? d : e` groups to the right.
pub proof fn lemma_two_conditionals(a: char, b: char, c: char, d: char, e: char)
    ensures
        parse_expr(
            seq![
                Token::Atom(a),
                Token::Op('?'),
                Token::Atom(b),
                Token::Op(':'),
                Token::Atom(c),
                Token::Op('?'),
                Token::Atom(d),
                Token::Op(':'),
                Token::Atom(e),
            ],
            0,
        ) == parsed(
            Tree::Cons(
                '?',
                seq![
                    Tree::Atom(a),
                    Tree::Atom(b),
                    Tree::Cons('?', seq![Tree::Atom(c), Tree::Atom(d), Tree::Atom(e)]),
                ],
            ),
            Seq::empty(),
        ),
{
    let none = Seq::<Token>::empty();
    let t8 = seq![Token::Atom(e)] + none;
    let t7 = seq![Token::Op(':')] + t8;
    let t6 = seq![Token::Atom(d)] + t7;
    let t5 = seq![Token::Op('?')] + t6;
    let t4 = seq![Token::Atom(c)] + t5;
    let t3 = seq![Token::Op(':')] + t4;
    let t2 = seq![Token::Atom(b)] + t3;
    let t1 = seq![Token::Op('?')] + t2;
    let t0 = seq![Token::Atom(a)] + t1;
    assert(t0 == seq![
        Token::Atom(a),
        Token::Op('?'),
        Token::Atom(b),
        Token::Op(':'),
        Token::Atom(c),
        Token::Op('?'),
        Token::Atom(d),
        Token::Op(':'),
        Token::Atom(e),
    ]);
    let (ta, tb, tc, td, te) = (
        Tree::Atom(a),
        Tree::Atom(b),
        Tree::Atom(c),
        Tree::Atom(d),
        Tree::Atom(e),
    );
    lemma_first_token(Token::Op(':'), t8);
    lemma_first_token(Token::Op('?'), t6);
    lemma_first_token(Token::Op(':'), t4);
    lemma_first_token(Token::Op('?'), t2);
    lemma_atom_first(e, none, 9);
    lemma_atom_first(d, t7, 0);
    lemma_atom_first(c, t5, 9);
    lemma_atom_first(b, t3, 0);
    lemma_atom_first(a, t1, 0);
    assert(parse_expr(t8, 9) == parsed(te, none));
    assert(parse_expr(t6, 0) == parsed(td, t7));
    let inner = Tree::Cons('?', seq![tc, td, te]);
    assert(parse_operators(tc, t5, 9) == parse_operators(inner, none, 9));
    assert(parse_expr(t4, 9) == parsed(inner, none));
    assert(parse_expr(t2, 0) == parsed(tb, t3));
    let whole = Tree::Cons('?', seq![ta, tb, inner]);
    assert(parse_operators(ta, t1, 0) == parse_operators(whole, none, 0));
}

} // verus!
