use pratt::{expr, infix_bp, try_expr, Token, S};

const INFIX: [char; 5] = ['+', '-', '*', '/', '.'];

const SENTENCES: [&str; 12] = [
    "1",
    "1 + 2 + 3",
    "1 * 2 + 3",
    "f . g . h",
    "- - 3 + 2 * 7",
    "- f . g . h",
    "1 ! !",
    "- 1 ! ! * 3 !",
    "(1 + 2) * (3 + 4)",
    "-a[(1 + 2) * 3]!",
    "a ? b : c ? d : e",
    "1 + a ? b ! : c + d",
];

fn atom(c: char) -> S {
    S::Atom(c)
}

fn node(op: char, kids: Vec<S>) -> S {
    S::Cons(op, kids)
}

/// The tokens of a tree in source order, without parentheses.
fn spelling(tree: &S, out: &mut Vec<Token>) {
    match tree {
        S::Atom(c) => out.push(Token::Atom(*c)),
        S::Cons(op, kids) => match (kids.as_slice(), *op) {
            ([operand], '+' | '-') => {
                out.push(Token::Op(*op));
                spelling(operand, out);
            }
            ([operand], _) => {
                spelling(operand, out);
                out.push(Token::Op(*op));
            }
            ([lhs, index], '[') => {
                spelling(lhs, out);
                out.push(Token::Op('['));
                spelling(index, out);
                out.push(Token::Op(']'));
            }
            ([lhs, rhs], _) => {
                spelling(lhs, out);
                out.push(Token::Op(*op));
                spelling(rhs, out);
            }
            ([lhs, mhs, rhs], _) => {
                spelling(lhs, out);
                out.push(Token::Op(*op));
                spelling(mhs, out);
                out.push(Token::Op(':'));
                spelling(rhs, out);
            }
            _ => panic!("a node of {} operands", kids.len()),
        },
    }
}

/// The text of a tree with every operand that is not a leaf between parentheses.
fn sentence(tree: &S, out: &mut String) {
    let operand = |tree: &S, out: &mut String| match tree {
        S::Atom(c) => out.push(*c),
        S::Cons(..) => {
            out.push('(');
            sentence(tree, out);
            out.push(')');
        }
    };
    match tree {
        S::Atom(c) => out.push(*c),
        S::Cons(op, kids) => match (kids.as_slice(), *op) {
            ([only], '+' | '-') => {
                out.push(*op);
                operand(only, out);
            }
            ([only], _) => {
                operand(only, out);
                out.push(*op);
            }
            ([lhs, index], '[') => {
                operand(lhs, out);
                out.push('[');
                operand(index, out);
                out.push(']');
            }
            ([lhs, rhs], _) => {
                operand(lhs, out);
                out.push(*op);
                operand(rhs, out);
            }
            ([lhs, mhs, rhs], _) => {
                operand(lhs, out);
                out.push(*op);
                operand(mhs, out);
                out.push(':');
                operand(rhs, out);
            }
            _ => panic!("a node of {} operands", kids.len()),
        },
    }
}

fn well_formed(tree: &S) -> bool {
    match tree {
        S::Atom(c) => c.is_ascii_alphanumeric(),
        S::Cons(op, kids) => {
            let known = match kids.len() {
                1 => "+-!".contains(*op),
                2 => "+-*/.[".contains(*op),
                3 => *op == '?',
                _ => false,
            };
            known && kids.iter().all(well_formed)
        }
    }
}

#[test]
fn every_letter_and_digit_alone_is_its_own_leaf() {
    let mut count = 0;
    for c in ('0'..='9').chain('a'..='z').chain('A'..='Z') {
        let tree = expr(&c.to_string());
        assert_eq!(tree, S::Atom(c));
        assert_eq!(tree.to_string(), c.to_string());
        count += 1;
    }
    assert_eq!(count, 62);
}

#[test]
fn a_leaf_may_stand_in_whitespace() {
    assert_eq!(expr("  x\n"), S::Atom('x'));
}

#[test]
fn whitespace_between_tokens_changes_nothing() {
    for input in SENTENCES {
        let dense: String = input.chars().filter(|c| !c.is_whitespace()).collect();
        let loose: String = input.chars().flat_map(|c| [' ', c, '\t', '\u{a0}']).collect();
        assert_eq!(expr(&dense), expr(input));
        assert_eq!(expr(&loose), expr(input));
    }
}

#[test]
fn parentheses_around_a_whole_expression_leave_no_trace() {
    for input in SENTENCES {
        assert_eq!(expr(&format!("({})", input)), expr(input));
        assert_eq!(expr(&format!("(({}))", input)), expr(input));
    }
}

#[test]
fn parentheses_make_an_operand_of_any_expression() {
    for input in SENTENCES {
        let inner = expr(input);
        assert_eq!(expr(&format!("({}) !", input)), node('!', vec![inner]));
        let inner = expr(input);
        assert_eq!(expr(&format!("z . ({})", input)), node('.', vec![atom('z'), inner]));
    }
}

#[test]
fn the_tree_spells_its_tokens_in_order() {
    for input in SENTENCES {
        let mut spelt = Vec::new();
        spelling(&expr(input), &mut spelt);
        let expected: Vec<Token> = input
            .chars()
            .filter(|c| !c.is_whitespace() && *c != '(' && *c != ')')
            .map(|c| if c.is_ascii_alphanumeric() { Token::Atom(c) } else { Token::Op(c) })
            .collect();
        assert_eq!(spelt, expected, "{}", input);
    }
}

#[test]
fn the_tree_spells_only_what_was_taken() {
    let mut spelt = Vec::new();
    spelling(&expr("(a + b) * c ] d e"), &mut spelt);
    assert_eq!(
        spelt,
        vec![Token::Atom('a'), Token::Op('+'), Token::Atom('b'), Token::Op('*'), Token::Atom('c')]
    );
}

#[test]
fn every_node_has_the_operands_of_its_operator() {
    for input in SENTENCES {
        assert!(well_formed(&expr(input)), "{}", input);
    }
}

#[test]
fn a_tree_is_the_parse_of_its_sentence() {
    for input in SENTENCES {
        let tree = expr(input);
        let mut text = String::new();
        sentence(&tree, &mut text);
        assert_eq!(expr(&text), tree, "{}", text);
    }
}

#[test]
fn a_sentence_has_all_its_parentheses() {
    let mut text = String::new();
    sentence(&expr("- a [ i ] ! * b ? c : d . e"), &mut text);
    assert_eq!(text, "(-((a[i])!))*((b?c:d).e)");
}

#[test]
fn a_tree_that_was_built_by_hand_is_the_parse_of_its_sentence() {
    let tree = node(
        '+',
        vec![
            atom('a'),
            node('+', vec![node('?', vec![atom('b'), atom('c'), atom('d')]), atom('e')]),
        ],
    );
    let mut text = String::new();
    sentence(&tree, &mut text);
    assert_eq!(text, "a+((b?c:d)+e)");
    assert_eq!(expr(&text), tree);
}

#[test]
fn of_two_infix_operators_the_tighter_takes_the_middle_operand() {
    for p in INFIX {
        for q in INFIX {
            let (_, right_of_p) = infix_bp(p);
            let (left_of_q, _) = infix_bp(q);
            let expected = if left_of_q >= right_of_p {
                node(p, vec![atom('a'), node(q, vec![atom('b'), atom('c')])])
            } else {
                node(q, vec![node(p, vec![atom('a'), atom('b')]), atom('c')])
            };
            assert_eq!(expr(&format!("a {} b {} c", p, q)), expected, "a {} b {} c", p, q);
        }
    }
}

#[test]
fn sums_and_products_group_to_the_left() {
    for op in ['+', '-', '*', '/'] {
        assert_eq!(
            expr(&format!("a {0} b {0} c", op)).to_string(),
            format!("({0} ({0} a b) c)", op)
        );
    }
}

#[test]
fn composition_groups_to_the_right() {
    assert_eq!(expr("a . b . c . d").to_string(), "(. a (. b (. c d)))");
}

#[test]
fn a_prefix_operator_yields_to_tighter_infix_operators_only() {
    for p in ['+', '-'] {
        for q in INFIX {
            let (left_of_q, _) = infix_bp(q);
            let expected = if left_of_q >= 5 {
                node(p, vec![node(q, vec![atom('a'), atom('b')])])
            } else {
                node(q, vec![node(p, vec![atom('a')]), atom('b')])
            };
            assert_eq!(expr(&format!("{} a {} b", p, q)), expected, "{} a {} b", p, q);
        }
    }
}

#[test]
fn postfix_operators_fold_from_the_left() {
    assert_eq!(
        expr("a ! ! !"),
        node('!', vec![node('!', vec![node('!', vec![atom('a')])])])
    );
    assert_eq!(
        expr("a [ i ] [ j ] !"),
        node(
            '!',
            vec![node('[', vec![node('[', vec![atom('a'), atom('i')]), atom('j')])]
        )
    );
}

#[test]
fn a_postfix_operator_binds_tighter_than_a_prefix_operator() {
    assert_eq!(expr("- a !"), node('-', vec![node('!', vec![atom('a')])]));
    assert_eq!(expr("- a [ i ]"), node('-', vec![node('[', vec![atom('a'), atom('i')])]));
}

#[test]
fn composition_binds_tighter_than_a_postfix_operator() {
    assert_eq!(expr("f . g !"), node('!', vec![node('.', vec![atom('f'), atom('g')])]));
}

#[test]
fn an_index_is_an_expression_of_its_own() {
    assert_eq!(
        expr("a [ i + j * k ]"),
        node(
            '[',
            vec![
                atom('a'),
                node('+', vec![atom('i'), node('*', vec![atom('j'), atom('k')])])
            ]
        )
    );
}

#[test]
fn conditionals_group_to_the_right() {
    for (a, b, c, d, e) in [('a', 'b', 'c', 'd', 'e'), ('1', '2', '3', '4', '5')] {
        assert_eq!(
            expr(&format!("{} ? {} : {} ? {} : {}", a, b, c, d, e)),
            node('?', vec![atom(a), atom(b), node('?', vec![atom(c), atom(d), atom(e)])])
        );
    }
}

#[test]
fn the_middle_branch_of_a_conditional_is_an_expression_of_its_own() {
    assert_eq!(
        expr("a ? b + c : d"),
        node('?', vec![atom('a'), node('+', vec![atom('b'), atom('c')]), atom('d')])
    );
    assert_eq!(
        expr("a ? b ? c : d : e"),
        node('?', vec![atom('a'), node('?', vec![atom('b'), atom('c'), atom('d')]), atom('e')])
    );
}

#[test]
fn a_conditional_binds_tighter_than_any_other_operator_on_its_left() {
    assert_eq!(
        expr("a . b ? c : d"),
        node('.', vec![atom('a'), node('?', vec![atom('b'), atom('c'), atom('d')])])
    );
}

#[test]
fn a_text_of_whitespace_is_rejected_whatever_its_length() {
    let mut text = String::new();
    for blank in [' ', '\t', '\n', '\u{85}', '\u{2009}', '\u{3000}'] {
        assert!(try_expr(&text).is_err());
        text.push(blank);
    }
    assert!(try_expr(&text).is_err());
}
