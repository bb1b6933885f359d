use pratt::{expr, S};

#[test]
fn a_leaf_is_its_character() {
    assert_eq!(S::Atom('x').to_string(), "x");
    assert_eq!(S::Atom('7').to_string(), "7");
    assert_eq!(S::Atom('\u{e9}').to_string(), "\u{e9}");
}

#[test]
fn a_node_is_its_operator_and_its_operands_between_parentheses() {
    assert_eq!(S::Cons('-', vec![S::Atom('a')]).to_string(), "(- a)");
    assert_eq!(S::Cons('+', vec![S::Atom('a'), S::Atom('b')]).to_string(), "(+ a b)");
    assert_eq!(
        S::Cons('?', vec![S::Atom('a'), S::Atom('b'), S::Atom('c')]).to_string(),
        "(? a b c)"
    );
}

#[test]
fn a_node_without_operands_keeps_its_space() {
    assert_eq!(S::Cons('+', vec![]).to_string(), "(+ )");
}

#[test]
fn operands_are_separated_by_one_space_each() {
    let four = S::Cons('f', vec![S::Atom('1'), S::Atom('2'), S::Atom('3'), S::Atom('4')]);
    assert_eq!(four.to_string(), "(f 1 2 3 4)");
}

#[test]
fn nodes_nest() {
    let tree = S::Cons(
        '*',
        vec![
            S::Cons('+', vec![S::Atom('1'), S::Atom('2')]),
            S::Cons('!', vec![S::Cons('-', vec![S::Atom('3')])]),
        ],
    );
    assert_eq!(tree.to_string(), "(* (+ 1 2) (! (- 3)))");
}

#[test]
fn writing_appends() {
    let mut text = String::from("tree: ");
    S::Cons('.', vec![S::Atom('f'), S::Atom('g')]).write_to(&mut text);
    assert_eq!(text, "tree: (. f g)");
    S::Atom('h').write_to(&mut text);
    assert_eq!(text, "tree: (. f g)h");
}

#[test]
fn rendering_twice_gives_the_same_text() {
    for input in ["1", "1 + 2 + 3", "-a[(1 + 2) * 3]!", "a ? b : c ? d : e"] {
        let tree = expr(input);
        let first = tree.to_string();
        let second = tree.to_string();
        assert_eq!(first, second);
    }
}

#[test]
fn the_parser_builds_the_tree_that_is_rendered() {
    assert_eq!(
        expr("- a * b"),
        S::Cons('*', vec![S::Cons('-', vec![S::Atom('a')]), S::Atom('b')])
    );
    assert_eq!(expr("a[i]"), S::Cons('[', vec![S::Atom('a'), S::Atom('i')]));
    assert_eq!(
        expr("a ? b : c"),
        S::Cons('?', vec![S::Atom('a'), S::Atom('b'), S::Atom('c')])
    );
}
