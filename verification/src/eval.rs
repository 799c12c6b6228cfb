//! Evaluation of three-token arithmetic expressions.
//!
//! [`parse_expr`] splits its input into whitespace-delimited tokens, parses
//! the first and third tokens as `i32` operands, and dispatches on the
//! operator token. Missing tokens, malformed operands, an unrecognized
//! operator, division by zero and arithmetic overflow all yield `None`;
//! tokens after the third are ignored.

use vstd::prelude::*;

use crate::number::{dec_int, in_i32, is_int_literal, lemma_dec_int, parse_int, parse_i32};
use crate::token::{
    all_space, lemma_extra_whitespace, lemma_three_words, tokenize, tokens_of, views_of,
};

verus! {

/// Signed division truncating toward zero, as `i32` division does.
pub open spec fn div_trunc(a: int, b: int) -> int
    recommends
        b != 0,
{
    if a == 0 {
        0
    } else if a > 0 && b > 0 {
        a / b
    } else if a < 0 && b < 0 {
        (a * -1) / (b * -1)
    } else if a < 0 {
        ((a * -1) / b) * -1
    } else {
        (a / (b * -1)) * -1
    }
}

/// The exact value of applying the operator character `op` to `a` and `b`.
pub open spec fn op_value(op: char, a: int, b: int) -> int
    recommends
        op == '/' ==> b != 0,
{
    if op == '+' {
        a + b
    } else if op == '-' {
        a - b
    } else if op == '*' {
        a * b
    } else {
        div_trunc(a, b)
    }
}

/// `v` as an `i32` where it fits, and `None` on overflow.
pub open spec fn fit_i32(v: int) -> Option<i32> {
    if in_i32(v) {
        Some(v as i32)
    } else {
        None
    }
}

/// The result of the operator token `op` applied to `n` and `m`: the exact
/// arithmetic result where `op` is one of the four operators and that result
/// fits in an `i32`, and `None` on an unrecognized operator, on division by
/// zero, and on overflow.
pub open spec fn op_result(op: Seq<char>, n: i32, m: i32) -> Option<i32> {
    if op.len() == 1 && (op[0] == '+' || op[0] == '-' || op[0] == '*') {
        fit_i32(op_value(op[0], n as int, m as int))
    } else if op.len() == 1 && op[0] == '/' {
        if m == 0 {
            None
        } else {
            fit_i32(op_value('/', n as int, m as int))
        }
    } else {
        None
    }
}

/// The value of the expression `s`: its tokens are split on whitespace, the
/// first and third must parse as `i32` operands, and the second selects the
/// operation. Every failure is `None`.
pub open spec fn eval_expr(s: Seq<char>) -> Option<i32> {
    let toks = tokens_of(s);
    if toks.len() < 3 {
        None
    } else {
        match (parse_int(toks[0]), parse_int(toks[2])) {
            (Some(n), Some(m)) => op_result(toks[1], n, m),
            _ => None,
        }
    }
}

/// Applies the operator token `op` to the operands `n` and `m` with checked
/// `i32` arithmetic.
pub fn apply_op(op: &Vec<char>, n: i32, m: i32) -> (r: Option<i32>)
    ensures
        r == op_result(op@, n, m),
{
    if op.len() != 1 {
        return None;
    }
    let c = op[0];
    if c == '+' {
        n.checked_add(m)
    } else if c == '-' {
        n.checked_sub(m)
    } else if c == '*' {
        n.checked_mul(m)
    } else if c == '/' {
        n.checked_div(m)
    } else {
        None
    }
}

/// Evaluates an expression of the form `"<int> <op> <int>"`.
///
/// The input is split on runs of whitespace; the first and third tokens are
/// parsed as signed 32-bit decimal integers and the second must be one of
/// `+`, `-`, `*`, `/`. Returns the arithmetic result, truncating toward zero
/// for division. Returns `None` on fewer than three tokens, a malformed or
/// out-of-range operand, an unrecognized operator, division by zero, or
/// overflow of the result; tokens after the third are ignored.
pub fn parse_expr(s: &str) -> (r: Option<i32>)
    ensures
        r == eval_expr(s@),
{
    let toks = tokenize(s);
    proof {
        assert(toks@.len() == tokens_of(s@).len());
    }
    if toks.len() < 3 {
        return None;
    }
    proof {
        assert(views_of(toks@)[0] == toks@[0]@);
        assert(views_of(toks@)[1] == toks@[1]@);
        assert(views_of(toks@)[2] == toks@[2]@);
    }
    let a = parse_i32(&toks[0]);
    let b = parse_i32(&toks[2]);
    match (a, b) {
        (Some(n), Some(m)) => apply_op(&toks[1], n, m),
        _ => None,
    }
}

/// The textual form `"<n> <op> <m>"`, each part separated by one space.
pub open spec fn render_expr(n: int, op: char, m: int) -> Seq<char> {
    dec_int(n) + seq![' '] + seq![op] + seq![' '] + dec_int(m)
}

/// A well-formed expression evaluates to its exact arithmetic value: for
/// operands `n` and `m` and an operator among the four, with `m` nonzero
/// under division and the result representable, `"<n> <op> <m>"` evaluates
/// to that result.
pub proof fn lemma_well_formed(n: i32, op: char, m: i32)
    requires
        op == '+' || op == '-' || op == '*' || op == '/',
        op == '/' ==> m != 0,
        in_i32(op_value(op, n as int, m as int)),
    ensures
        eval_expr(render_expr(n as int, op, m as int)) == Some(
            op_value(op, n as int, m as int) as i32,
        ),
{
    let a = dec_int(n as int);
    let b = dec_int(m as int);
    lemma_dec_int(n as int);
    lemma_dec_int(m as int);
    lemma_three_words(a, op, b);
    let toks = tokens_of(render_expr(n as int, op, m as int));
    assert(toks[0] == a && toks[1] == seq![op] && toks[2] == b);
    assert(parse_int(a) == Some(n));
    assert(parse_int(b) == Some(m));
    assert(seq![op].len() == 1 && seq![op][0] == op);
}

/// Evaluation depends only on the token sequence.
pub proof fn lemma_tokens_determine_result(s1: Seq<char>, s2: Seq<char>)
    requires
        tokens_of(s1) == tokens_of(s2),
    ensures
        eval_expr(s1) == eval_expr(s2),
{
}

/// Whitespace insensitivity: widening any interior whitespace run from a
/// single space to a longer run leaves the result unchanged.
pub proof fn lemma_whitespace_insensitive(pre: Seq<char>, w: Seq<char>, suf: Seq<char>)
    requires
        all_space(w),
        w.len() >= 1,
    ensures
        eval_expr(pre + w + suf) == eval_expr(pre + seq![' '] + suf),
{
    lemma_extra_whitespace(pre, w, suf);
}

/// An unrecognized operator: where the second token is none of the four
/// operator symbols, the result is absent.
pub proof fn lemma_unrecognized_operator(s: Seq<char>)
    requires
        tokens_of(s).len() >= 2,
        tokens_of(s)[1] != seq!['+'],
        tokens_of(s)[1] != seq!['-'],
        tokens_of(s)[1] != seq!['*'],
        tokens_of(s)[1] != seq!['/'],
    ensures
        eval_expr(s) is None,
{
    let op = tokens_of(s)[1];
    if op.len() == 1 {
        if op[0] == '+' {
            assert(op =~= seq!['+']);
        } else if op[0] == '-' {
            assert(op =~= seq!['-']);
        } else if op[0] == '*' {
            assert(op =~= seq!['*']);
        } else if op[0] == '/' {
            assert(op =~= seq!['/']);
        }
    }
}

/// A malformed operand: where the first or third token is not an integer
/// literal, the result is absent.
pub proof fn lemma_malformed_operand(s: Seq<char>)
    requires
        tokens_of(s).len() >= 3,
        !is_int_literal(tokens_of(s)[0]) || !is_int_literal(tokens_of(s)[2]),
    ensures
        eval_expr(s) is None,
{
}

/// Fewer than three tokens: the result is absent rather than an error.
pub proof fn lemma_missing_tokens(s: Seq<char>)
    requires
        tokens_of(s).len() < 3,
    ensures
        eval_expr(s) is None,
{
}

} // verus!
