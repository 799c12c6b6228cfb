use expr_eval::eval::apply_op;
use expr_eval::number::parse_i32;
use expr_eval::token::tokenize;

#[test]
fn tokenize_splits_on_whitespace_runs() {
    assert_eq!(
        tokenize("ab  c \t d"),
        vec![vec!['a', 'b'], vec!['c'], vec!['d']]
    );
}

#[test]
fn tokenize_empty_and_blank() {
    assert_eq!(tokenize(""), Vec::<Vec<char>>::new());
    assert_eq!(tokenize(" \t\n"), Vec::<Vec<char>>::new());
}

#[test]
fn tokenize_keeps_non_ascii_characters() {
    assert_eq!(tokenize("α β"), vec![vec!['α'], vec!['β']]);
}

#[test]
fn parse_i32_values() {
    assert_eq!(parse_i32(&vec!['4', '2']), Some(42));
    assert_eq!(parse_i32(&vec!['-', '4', '2']), Some(-42));
    assert_eq!(parse_i32(&vec!['+', '7']), Some(7));
    assert_eq!(parse_i32(&vec!['0']), Some(0));
    assert_eq!(parse_i32(&vec!['-', '0']), Some(0));
}

#[test]
fn parse_i32_bounds() {
    let max: Vec<char> = "2147483647".chars().collect();
    let min: Vec<char> = "-2147483648".chars().collect();
    let over: Vec<char> = "2147483648".chars().collect();
    let under: Vec<char> = "-2147483649".chars().collect();
    let far: Vec<char> = "99999999999999999999".chars().collect();
    assert_eq!(parse_i32(&max), Some(i32::MAX));
    assert_eq!(parse_i32(&min), Some(i32::MIN));
    assert_eq!(parse_i32(&over), None);
    assert_eq!(parse_i32(&under), None);
    assert_eq!(parse_i32(&far), None);
}

#[test]
fn parse_i32_rejects_malformed_tokens() {
    assert_eq!(parse_i32(&Vec::new()), None);
    assert_eq!(parse_i32(&vec!['-']), None);
    assert_eq!(parse_i32(&vec!['+']), None);
    assert_eq!(parse_i32(&vec!['1', 'x']), None);
    assert_eq!(parse_i32(&vec!['x', '1']), None);
    assert_eq!(parse_i32(&vec!['1', '.', '5']), None);
}

#[test]
fn apply_op_dispatches() {
    assert_eq!(apply_op(&vec!['+'], 2, 3), Some(5));
    assert_eq!(apply_op(&vec!['-'], 2, 3), Some(-1));
    assert_eq!(apply_op(&vec!['*'], 2, 3), Some(6));
    assert_eq!(apply_op(&vec!['/'], 9, 2), Some(4));
    assert_eq!(apply_op(&vec!['%'], 2, 3), None);
    assert_eq!(apply_op(&vec!['+', '+'], 2, 3), None);
}
