use expr_eval::parse_expr;

#[test]
fn adds() {
    assert_eq!(parse_expr("1 + 2"), Some(3));
}

#[test]
fn subtracts() {
    assert_eq!(parse_expr("478 - 234"), Some(244));
}

#[test]
fn multiplies() {
    assert_eq!(parse_expr("15 * 56"), Some(840));
}

#[test]
fn divides_truncating() {
    assert_eq!(parse_expr("98 / 12"), Some(8));
}

#[test]
fn unrecognized_operator() {
    assert_eq!(parse_expr("1 ? 2"), None);
}

#[test]
fn malformed_left_operand() {
    assert_eq!(parse_expr("x + 2"), None);
}

#[test]
fn malformed_right_operand() {
    assert_eq!(parse_expr("1 + x"), None);
}

#[test]
fn negative_operands() {
    assert_eq!(parse_expr("-7 + -3"), Some(-10));
    assert_eq!(parse_expr("-7 * 3"), Some(-21));
}

#[test]
fn explicit_plus_sign_and_leading_zeros() {
    assert_eq!(parse_expr("+5 + 2"), Some(7));
    assert_eq!(parse_expr("007 * 1"), Some(7));
}

#[test]
fn division_truncates_toward_zero() {
    assert_eq!(parse_expr("7 / 2"), Some(3));
    assert_eq!(parse_expr("-7 / 2"), Some(-3));
    assert_eq!(parse_expr("7 / -2"), Some(-3));
    assert_eq!(parse_expr("-7 / -2"), Some(3));
    assert_eq!(parse_expr("0 / 5"), Some(0));
}

#[test]
fn division_by_zero() {
    assert_eq!(parse_expr("1 / 0"), None);
}

#[test]
fn division_overflow() {
    assert_eq!(parse_expr("-2147483648 / -1"), None);
}

#[test]
fn addition_overflow() {
    assert_eq!(parse_expr("2147483647 + 1"), None);
    assert_eq!(parse_expr("2147483647 + 0"), Some(2147483647));
}

#[test]
fn subtraction_overflow() {
    assert_eq!(parse_expr("-2147483648 - 1"), None);
    assert_eq!(parse_expr("-2147483648 - 0"), Some(-2147483648));
}

#[test]
fn multiplication_overflow() {
    assert_eq!(parse_expr("100000 * 100000"), None);
}

#[test]
fn operand_out_of_range() {
    assert_eq!(parse_expr("2147483648 - 1"), None);
    assert_eq!(parse_expr("1 - 99999999999999999999"), None);
}

#[test]
fn missing_tokens() {
    assert_eq!(parse_expr(""), None);
    assert_eq!(parse_expr("   "), None);
    assert_eq!(parse_expr("1"), None);
    assert_eq!(parse_expr("1 +"), None);
}

#[test]
fn sign_alone_is_no_operand() {
    assert_eq!(parse_expr("- + 2"), None);
    assert_eq!(parse_expr("--5 + 1"), None);
}

#[test]
fn doubled_operator() {
    assert_eq!(parse_expr("1 ++ 2"), None);
}

#[test]
fn extra_interior_whitespace() {
    assert_eq!(parse_expr("1   +   2"), parse_expr("1 + 2"));
    assert_eq!(parse_expr("1   +   2"), Some(3));
}

#[test]
fn leading_and_trailing_whitespace() {
    assert_eq!(parse_expr("  1 + 2  "), Some(3));
}

#[test]
fn other_whitespace_characters() {
    assert_eq!(parse_expr("1\t+\n2"), Some(3));
    assert_eq!(parse_expr("1\u{000B}+\u{000C}2"), Some(3));
    assert_eq!(parse_expr("1\r+ 2"), Some(3));
}

#[test]
fn tokens_after_the_third_are_ignored() {
    assert_eq!(parse_expr("1 + 2 9"), Some(3));
    assert_eq!(parse_expr("1 + 2 junk"), Some(3));
}

#[test]
fn same_input_same_result() {
    let first = parse_expr("98 / 12");
    let second = parse_expr("98 / 12");
    assert_eq!(first, second);
    let first = parse_expr("1 ? 2");
    let second = parse_expr("1 ? 2");
    assert_eq!(first, second);
}
