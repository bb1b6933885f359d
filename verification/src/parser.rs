//! The precedence-climbing engine.

use vstd::prelude::*;
use vstd::pervasive::unreached;
use crate::grammar::{ParseError, parse, parse_expr, parse_operators, parse_primary, parsed};
use crate::lexer::Lexer;
use crate::power::{infix_bp, is_infix_op, is_prefix_op, postfix_bp, prefix_bp};
use crate::token::Token;
use crate::tree::{S, Tree, lemma_views};

verus! {

/// The node of a unary operator.
fn unary(op: char, operand: S) -> (node: S)
    ensures
        node@ == Tree::Cons(op, seq![operand@]),
{
    let kids = vec![operand];
    proof {
        lemma_views(kids@);
        assert(crate::tree::views(kids@) == seq![operand@]);
    }
    S::Cons(op, kids)
}

/// The node of a binary operator.
fn binary(op: char, lhs: S, rhs: S) -> (node: S)
    ensures
        node@ == Tree::Cons(op, seq![lhs@, rhs@]),
{
    let kids = vec![lhs, rhs];
    proof {
        lemma_views(kids@);
        assert(crate::tree::views(kids@) == seq![lhs@, rhs@]);
    }
    S::Cons(op, kids)
}

/// The node of a ternary operator.
fn ternary(op: char, lhs: S, mhs: S, rhs: S) -> (node: S)
    ensures
        node@ == Tree::Cons(op, seq![lhs@, mhs@, rhs@]),
{
    let kids = vec![lhs, mhs, rhs];
    proof {
        lemma_views(kids@);
        assert(crate::tree::views(kids@) == seq![lhs@, mhs@, rhs@]);
    }
    S::Cons(op, kids)
}

/// Consumes the next token, which has to be the operator `delimiter`.
fn expect_next(lexer: &mut Lexer, delimiter: char) -> (r: Result<(), ParseError>)
    ensures
        match crate::grammar::expect(old(lexer)@, delimiter) {
            Ok(rest) => r is Ok && final(lexer)@ == rest,
            Err(e) => r matches Err(found) && found == e,
        },
        final(lexer)@.len() <= old(lexer)@.len(),
{
    let found = lexer.next();
    if found == Token::Op(delimiter) {
        Ok(())
    } else {
        Err(ParseError::UnmatchedDelimiter(delimiter, found))
    }
}

/// Parses one expression from the front of `lexer`, taking in the operators
/// that bind at least as tightly as `min_bp`, and consumes its tokens. Where
/// the tokens do not start with an expression, it says why; the lexer is then
/// left where the fault was found.
pub fn try_expr_bp(lexer: &mut Lexer, min_bp: u32) -> (r: Result<S, ParseError>)
    ensures
        match parse_expr(old(lexer)@, min_bp as nat) {
            Ok((tree, rest)) => r matches Ok(found) && found@ == tree && final(lexer)@ == rest,
            Err(e) => r matches Err(found) && found == e,
        },
        final(lexer)@.len() <= old(lexer)@.len(),
        r is Ok ==> final(lexer)@.len() < old(lexer)@.len(),
    decreases old(lexer)@.len(),
{
    let ghost tokens = lexer@;
    let mut lhs = match lexer.next() {
        Token::Atom(c) => S::Atom(c),
        Token::Op(op) => {
            if op == '(' {
                let inner = try_expr_bp(lexer, 0)?;
                expect_next(lexer, ')')?;
                inner
            } else if is_prefix_op(op) {
                let ((), r_bp) = prefix_bp(op);
                unary(op, try_expr_bp(lexer, r_bp)?)
            } else {
                return Err(ParseError::UnknownOperator(op));
            }
        },
        Token::Eof => {
            return Err(ParseError::UnexpectedToken(Token::Eof));
        },
    };
    assert(parse_primary(tokens) == parsed(lhs@, lexer@));

    loop
        invariant
            lexer@.len() < tokens.len(),
            parse_expr(tokens, min_bp as nat) == parse_operators(lhs@, lexer@, min_bp as nat),
            tokens == old(lexer)@,
        ensures
            parse_expr(tokens, min_bp as nat) == parsed(lhs@, lexer@),
            lexer@.len() < tokens.len(),
        decreases lexer@.len(),
    {
        let op = match lexer.peek() {
            Token::Op(op) => op,
            Token::Eof => {
                break ;
            },
            t => {
                return Err(ParseError::UnexpectedToken(t));
            },
        };
        if op == ')' || op == ']' || op == ':' {
            break ;
        }
        if let Some((l_bp, ())) = postfix_bp(op) {
            if l_bp < min_bp {
                break ;
            }
            lexer.next();
            if op == '[' {
                let index = try_expr_bp(lexer, 0)?;
                expect_next(lexer, ']')?;
                lhs = binary(op, lhs, index);
            } else {
                lhs = unary(op, lhs);
            }
            continue ;
        }
        if !is_infix_op(op) {
            return Err(ParseError::UnknownOperator(op));
        }
        let (l_bp, r_bp) = infix_bp(op);
        if l_bp < min_bp {
            break ;
        }
        lexer.next();
        if op == '?' {
            let mhs = try_expr_bp(lexer, 0)?;
            expect_next(lexer, ':')?;
            let rhs = try_expr_bp(lexer, r_bp)?;
            lhs = ternary(op, lhs, mhs, rhs);
        } else {
            let rhs = try_expr_bp(lexer, r_bp)?;
            lhs = binary(op, lhs, rhs);
        }
    }
    Ok(lhs)
}

/// Parses one expression from the front of `lexer`, taking in the operators
/// that bind at least as tightly as `min_bp`, and consumes its tokens.
///
/// The tokens have to start with an expression. Code that Verus does not hold
/// to this is stopped by a panic where they do not.
pub fn expr_bp(lexer: &mut Lexer, min_bp: u32) -> (tree: S)
    requires
        parse_expr(old(lexer)@, min_bp as nat) is Ok,
    ensures
        parse_expr(old(lexer)@, min_bp as nat) == parsed(tree@, final(lexer)@),
{
    match try_expr_bp(lexer, min_bp) {
        Ok(tree) => tree,
        Err(_) => unreached(),
    }
}

/// Parses the first expression of `input`, or says why there is none. What
/// follows the expression, behind a terminator, is not looked at.
pub fn try_expr(input: &str) -> (r: Result<S, ParseError>)
    ensures
        match parse(input@) {
            Ok(tree) => r matches Ok(found) && found@ == tree,
            Err(e) => r matches Err(found) && found == e,
        },
{
    let mut lexer = Lexer::new(input);
    try_expr_bp(&mut lexer, 0)
}

/// Parses the first expression of `input`.
///
/// The text has to start with an expression. Code that Verus does not hold to
/// this is stopped by a panic where it does not: no tree is made up.
pub fn expr(input: &str) -> (tree: S)
    requires
        parse(input@) is Ok,
    ensures
        parse(input@) matches Ok(denoted) && denoted == tree@,
{
    let mut lexer = Lexer::new(input);
    expr_bp(&mut lexer, 0)
}

} // verus!
