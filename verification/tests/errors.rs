use pratt::{expr_bp, try_expr, try_expr_bp, Lexer, ParseError, Token, S};

fn rejected(input: &str) -> ParseError {
    match try_expr(input) {
        Ok(tree) => panic!("{:?} was parsed to {}", input, tree.to_string()),
        Err(e) => e,
    }
}

#[test]
fn an_empty_text_is_no_expression() {
    assert_eq!(rejected(""), ParseError::UnexpectedToken(Token::Eof));
}

#[test]
fn whitespace_alone_is_no_expression() {
    assert_eq!(rejected(" "), ParseError::UnexpectedToken(Token::Eof));
    assert_eq!(rejected(" \t\r\n\u{a0}\u{2028}"), ParseError::UnexpectedToken(Token::Eof));
}

#[test]
fn an_operand_may_not_be_missing() {
    assert_eq!(rejected("1 +"), ParseError::UnexpectedToken(Token::Eof));
    assert_eq!(rejected("-"), ParseError::UnexpectedToken(Token::Eof));
    assert_eq!(rejected("("), ParseError::UnexpectedToken(Token::Eof));
    assert_eq!(rejected("a ? b :"), ParseError::UnexpectedToken(Token::Eof));
}

#[test]
fn two_operands_need_an_operator_between_them() {
    assert_eq!(rejected("1 2"), ParseError::UnexpectedToken(Token::Atom('2')));
    assert_eq!(rejected("12"), ParseError::UnexpectedToken(Token::Atom('2')));
    assert_eq!(rejected("(a) b"), ParseError::UnexpectedToken(Token::Atom('b')));
    assert_eq!(rejected("a ! b"), ParseError::UnexpectedToken(Token::Atom('b')));
}

#[test]
fn an_expression_cannot_begin_with_any_operator() {
    assert_eq!(rejected("* 1"), ParseError::UnknownOperator('*'));
    assert_eq!(rejected("! 1"), ParseError::UnknownOperator('!'));
    assert_eq!(rejected(")"), ParseError::UnknownOperator(')'));
    assert_eq!(rejected("1 + ]"), ParseError::UnknownOperator(']'));
    assert_eq!(rejected("$"), ParseError::UnknownOperator('$'));
    assert_eq!(rejected("a[]"), ParseError::UnknownOperator(']'));
    assert_eq!(rejected("()"), ParseError::UnknownOperator(')'));
}

#[test]
fn an_operand_cannot_be_followed_by_any_operator() {
    assert_eq!(rejected("1 $ 2"), ParseError::UnknownOperator('$'));
    assert_eq!(rejected("1 ( 2 )"), ParseError::UnknownOperator('('));
    assert_eq!(rejected("a = b"), ParseError::UnknownOperator('='));
    assert_eq!(rejected("- a \u{d7} b"), ParseError::UnknownOperator('\u{d7}'));
}

#[test]
fn a_group_has_to_be_closed() {
    assert_eq!(rejected("(1 + 2"), ParseError::UnmatchedDelimiter(')', Token::Eof));
    assert_eq!(rejected("(1 ]"), ParseError::UnmatchedDelimiter(')', Token::Op(']')));
    assert_eq!(rejected("(a : b)"), ParseError::UnmatchedDelimiter(')', Token::Op(':')));
}

#[test]
fn an_index_has_to_be_closed() {
    assert_eq!(rejected("a[1"), ParseError::UnmatchedDelimiter(']', Token::Eof));
    assert_eq!(rejected("a[1)"), ParseError::UnmatchedDelimiter(']', Token::Op(')')));
}

#[test]
fn a_conditional_needs_its_colon() {
    assert_eq!(rejected("a ? b"), ParseError::UnmatchedDelimiter(':', Token::Eof));
    assert_eq!(rejected("a ? b ) c"), ParseError::UnmatchedDelimiter(':', Token::Op(')')));
}

#[test]
fn the_first_fault_is_reported() {
    assert_eq!(rejected("(1 $ 2"), ParseError::UnknownOperator('$'));
    assert_eq!(rejected("a[b c"), ParseError::UnexpectedToken(Token::Atom('c')));
}

#[test]
fn what_follows_a_terminator_is_not_looked_at() {
    assert_eq!(try_expr("1 ) 2"), Ok(S::Atom('1')));
    assert_eq!(try_expr("a + b ] $ $"), Ok(S::Cons('+', vec![S::Atom('a'), S::Atom('b')])));
    assert_eq!(try_expr("x : y"), Ok(S::Atom('x')));
}

#[test]
fn a_well_formed_text_is_parsed_either_way() {
    for input in ["1", "1 + 2 * 3", "- a [ b ] !", "a ? b : c", "((x))"] {
        assert_eq!(try_expr(input), Ok(pratt::expr(input)));
    }
}

#[test]
fn the_threshold_decides_where_an_expression_ends() {
    let mut lexer = Lexer::new("1 * 2 + 3");
    assert_eq!(try_expr_bp(&mut lexer, 4), Ok(S::Atom('1')));
    assert_eq!(lexer.peek(), Token::Op('*'));

    let mut lexer = Lexer::new("1 * 2 + 3");
    assert_eq!(
        try_expr_bp(&mut lexer, 3).map(|tree| tree.to_string()),
        Ok(String::from("(* 1 2)"))
    );
    assert_eq!(lexer.next(), Token::Op('+'));
    assert_eq!(lexer.next(), Token::Atom('3'));
    assert_eq!(lexer.next(), Token::Eof);

    let mut lexer = Lexer::new("1 * 2 + 3");
    assert_eq!(expr_bp(&mut lexer, 1).to_string(), "(+ (* 1 2) 3)");
    assert_eq!(lexer.peek(), Token::Eof);
}

#[test]
fn a_postfix_operator_below_the_threshold_is_left() {
    let mut lexer = Lexer::new("a ! . b");
    assert_eq!(try_expr_bp(&mut lexer, 7), Ok(S::Atom('a')));
    assert_eq!(lexer.peek(), Token::Op('!'));

    let mut lexer = Lexer::new("a ! . b");
    assert_eq!(expr_bp(&mut lexer, 6).to_string(), "(. (! a) b)");
}

#[test]
fn a_terminator_is_left_for_the_caller() {
    let mut lexer = Lexer::new("a + b ) c");
    assert_eq!(expr_bp(&mut lexer, 0).to_string(), "(+ a b)");
    assert_eq!(lexer.next(), Token::Op(')'));
    assert_eq!(lexer.next(), Token::Atom('c'));
}

#[test]
fn a_failed_parse_never_gives_tokens_back() {
    let mut lexer = Lexer::new("1 + ( 2 * $");
    assert_eq!(try_expr_bp(&mut lexer, 0), Err(ParseError::UnknownOperator('$')));
    assert_eq!(lexer.next(), Token::Eof);
}
