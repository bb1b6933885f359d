use pratt::{answer, expr, Lexer};

fn renders(actual: String, expect: &str) {
    assert_eq!(actual, expect);
}

#[test]
fn test_answer() {
    renders(answer().to_string(), "42")
}

#[test]
fn create_lexer() {
    renders(
        format!("{:?}", Lexer::new("1 + 2 + 3")),
        "Lexer { tokens: [Atom('3'), Op('+'), Atom('2'), Op('+'), Atom('1')] }",
    )
}

#[test]
fn test_plus() {
    renders(expr("1 + 2 + 3").to_string(), "(+ (+ 1 2) 3)")
}

#[test]
fn test_mul_plus() {
    renders(expr("1 * 2 + 3").to_string(), "(+ (* 1 2) 3)")
}

#[test]
fn test_fn_compose() {
    renders(expr("f . g . h").to_string(), "(. f (. g h))")
}

#[test]
fn test_prefix() {
    renders(expr("- - 3 + 2 * 7").to_string(), "(+ (- (- 3)) (* 2 7))")
}

#[test]
fn test_prefix_compose() {
    renders(expr("- f . g . h").to_string(), "(- (. f (. g h)))")
}

#[test]
fn test_postfix() {
    renders(expr("1 ! !").to_string(), "(! (! 1))")
}

#[test]
fn test_postfix_infix() {
    renders(expr("- 1 ! ! * 3 !").to_string(), "(* (- (! (! 1))) (! 3))")
}

#[test]
fn test_paren() {
    renders(expr("(1 + 2) * (3 + 4)").to_string(), "(* (+ 1 2) (+ 3 4))")
}

#[test]
fn test_paren_postfix() {
    renders(expr("(- 1)!").to_string(), "(! (- 1))")
}

#[test]
fn test_bracket() {
    renders(expr("a[1]").to_string(), "([ a 1)")
}

#[test]
fn test_bracket_complex() {
    renders(
        expr("-a[(1 + 2) * 3]!").to_string(),
        "(- (! ([ a (* (+ 1 2) 3))))",
    )
}

#[test]
fn test_ternary() {
    renders(expr("a ? b : c ? d : e").to_string(), "(? a b (? c d e))")
}

#[test]
fn test_ternary_complex() {
    renders(expr("1 + a ? b ! : c + d").to_string(), "(+ (+ 1 (? a (! b) c)) d)")
}
