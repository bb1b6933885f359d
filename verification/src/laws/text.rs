//! Texts that denote a leaf, and texts and tokens that denote nothing.

use vstd::prelude::*;
use crate::grammar::{
    ParseError, is_terminator, parse, parse_expr, parse_operators, parse_primary, parsed, rejected,
};
use crate::laws::context::lemma_grouping;
use crate::power::{infix_power, postfix_power, prefix_power};
use crate::token::{Token, head, is_operand, is_space, lex, tail, token_of};
use crate::tree::Tree;

verus! {

/// A text of whitespace alone has no tokens.
pub proof fn lemma_blank_text_has_no_tokens(text: Seq<char>)
    requires
        forall|i: int| 0 <= i < text.len() ==> is_space(#[trigger] text[i]),
    ensures
        lex(text) == Seq::<Token>::empty(),
    decreases text.len(),
{
    if text.len() > 0 {
        assert(is_space(text[text.len() - 1]));
        lemma_blank_text_has_no_tokens(text.drop_last());
    }
}

/// A text of whitespace alone, the empty text among them, denotes no tree.
pub proof fn lemma_blank_text_is_rejected(text: Seq<char>)
    requires
        forall|i: int| 0 <= i < text.len() ==> is_space(#[trigger] text[i]),
    ensures
        parse(text) == Err::<Tree, ParseError>(ParseError::UnexpectedToken(Token::Eof)),
{
    lemma_blank_text_has_no_tokens(text);
}

/// Where an expression has to begin, an operator that is neither `(` nor a
/// prefix operator is rejected, whatever follows it.
pub proof fn lemma_unknown_prefix_is_rejected(tokens: Seq<Token>, op: char, min_bp: nat)
    requires
        head(tokens) == Token::Op(op),
        op != '(',
        prefix_power(op) is None,
    ensures
        parse_expr(tokens, min_bp) == rejected(ParseError::UnknownOperator(op)),
{
}

/// After an operand, an operator that is neither a terminator nor a postfix
/// nor an infix operator is rejected, whatever stands around it.
pub proof fn lemma_unknown_infix_is_rejected(lhs: Tree, tokens: Seq<Token>, op: char, min_bp: nat)
    requires
        head(tokens) == Token::Op(op),
        !is_terminator(op),
        postfix_power(op) is None,
        infix_power(op) is None,
    ensures
        parse_operators(lhs, tokens, min_bp) == rejected(ParseError::UnknownOperator(op)),
{
}

/// A text of one ASCII letter or digit denotes the leaf of that character,
/// whose canonical text is the character again.
pub proof fn lemma_single_atom(c: char)
    requires
        is_operand(c),
    ensures
        parse(seq![c]) == Ok::<Tree, ParseError>(Tree::Atom(c)),
        Tree::Atom(c).render() == seq![c],
{
    Seq::lemma_filter_map_singleton(c, |c: char| token_of(c));
    let tokens = seq![Token::Atom(c)];
    assert(lex(seq![c]) == tokens);
    assert(parse_primary(tokens) == parsed(Tree::Atom(c), tail(tokens)));
    assert(parse_operators(Tree::Atom(c), tail(tokens), 0) == parsed(Tree::Atom(c), tail(tokens)));
}

/// Lexing goes character by character: the tokens of two texts in a row are
/// the tokens of the first and then those of the second.
pub proof fn lemma_lex_concat(first: Seq<char>, second: Seq<char>)
    ensures
        lex(first + second) == lex(first) + lex(second),
    decreases second.len(),
{
    if second.len() == 0 {
        assert(first + second == first);
    } else {
        assert((first + second).drop_last() == first + second.drop_last());
        lemma_lex_concat(first, second.drop_last());
    }
}

/// Whitespace between two texts changes nothing: the tokens are those of the
/// two texts in a row.
pub proof fn lemma_whitespace_is_skipped(first: Seq<char>, blank: Seq<char>, second: Seq<char>)
    requires
        forall|i: int| 0 <= i < blank.len() ==> is_space(#[trigger] blank[i]),
    ensures
        lex(first + blank + second) == lex(first + second),
{
    lemma_blank_text_has_no_tokens(blank);
    lemma_lex_concat(first, blank);
    lemma_lex_concat(first + blank, second);
    lemma_lex_concat(first, second);
}

/// Grouping: where a text is an expression to its end, the same text between
/// parentheses denotes the same tree.
pub proof fn lemma_grouped_text(text: Seq<char>, tree: Tree)
    requires
        parse_expr(lex(text), 0) == parsed(tree, Seq::empty()),
    ensures
        parse(seq!['('] + text + seq![')']) == Ok::<Tree, ParseError>(tree),
{
    Seq::lemma_filter_map_singleton('(', |c: char| token_of(c));
    Seq::lemma_filter_map_singleton(')', |c: char| token_of(c));
    lemma_lex_concat(seq!['('], text);
    lemma_lex_concat(seq!['('] + text, seq![')']);
    lemma_grouping(lex(text), tree, 0);
}

} // verus!
