use pratt::power::{is_infix_op, is_prefix_op};
use pratt::{infix_bp, postfix_bp, prefix_bp};

#[test]
fn prefix_operators_bind_at_five() {
    assert_eq!(prefix_bp('+'), ((), 5));
    assert_eq!(prefix_bp('-'), ((), 5));
}

#[test]
fn sums_bind_loosest_and_to_the_left() {
    assert_eq!(infix_bp('+'), (1, 2));
    assert_eq!(infix_bp('-'), (1, 2));
}

#[test]
fn products_bind_tighter_than_sums() {
    assert_eq!(infix_bp('*'), (3, 4));
    assert_eq!(infix_bp('/'), (3, 4));
}

#[test]
fn composition_binds_to_the_right() {
    assert_eq!(infix_bp('.'), (8, 7));
}

#[test]
fn the_conditional_binds_tightest_on_its_left() {
    assert_eq!(infix_bp('?'), (10, 9));
}

#[test]
fn postfix_operators_bind_at_six() {
    assert_eq!(postfix_bp('['), Some((6, ())));
    assert_eq!(postfix_bp('!'), Some((6, ())));
}

#[test]
fn nothing_else_is_a_postfix_operator() {
    for code in 0..=0x10ffff_u32 {
        if let Some(c) = char::from_u32(code) {
            assert_eq!(postfix_bp(c).is_some(), c == '[' || c == '!');
        }
    }
}

#[test]
fn the_operators_of_each_role() {
    for code in 0..=0x10ffff_u32 {
        if let Some(c) = char::from_u32(code) {
            assert_eq!(is_prefix_op(c), "+-".contains(c));
            assert_eq!(is_infix_op(c), "+-*/.?".contains(c));
        }
    }
}

#[test]
fn left_and_right_powers_never_meet() {
    for op in "+-*/.?".chars() {
        let (left, right) = infix_bp(op);
        assert_ne!(left, right);
        assert_eq!(left < right, "+-*/".contains(op));
    }
}
