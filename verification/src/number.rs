//! Signed decimal integer literals.
//!
//! A literal is an optional leading `+` or `-` sign followed by one or more
//! decimal digits. [`parse_int`] gives the value of a literal as an `i32`,
//! or `None` where the token is not a literal or its value does not fit.

use vstd::prelude::*;

use crate::token::no_space;

verus! {

/// Whether `c` is a decimal digit.
pub open spec fn is_digit(c: char) -> bool {
    '0' <= c && c <= '9'
}

/// The numeric value of a decimal digit character.
pub open spec fn digit_val(c: char) -> int {
    c as int - '0' as int
}

/// Whether every character of `t` is a decimal digit.
pub open spec fn all_digits(t: Seq<char>) -> bool {
    forall|i: int| 0 <= i < t.len() ==> is_digit(#[trigger] t[i])
}

/// The value of a run of decimal digits, most significant first.
pub open spec fn digits_val(t: Seq<char>) -> int
    decreases t.len(),
{
    if t.len() == 0 {
        0
    } else {
        10 * digits_val(t.drop_last()) + digit_val(t.last())
    }
}

/// The length of the sign prefix of `t`: 1 for a leading `+` or `-`, else 0.
pub open spec fn sign_len(t: Seq<char>) -> int {
    if t.len() > 0 && (t[0] == '+' || t[0] == '-') {
        1
    } else {
        0
    }
}

/// Whether `t` is a decimal integer literal: an optional sign followed by
/// at least one digit, and nothing else.
pub open spec fn is_int_literal(t: Seq<char>) -> bool {
    t.len() > sign_len(t) && all_digits(t.skip(sign_len(t)))
}

/// The mathematical value of an integer literal.
pub open spec fn literal_val(t: Seq<char>) -> int {
    if t.len() > 0 && t[0] == '-' {
        -digits_val(t.skip(1))
    } else {
        digits_val(t.skip(sign_len(t)))
    }
}

/// Whether the mathematical integer `v` fits in an `i32`.
pub open spec fn in_i32(v: int) -> bool {
    i32::MIN <= v <= i32::MAX
}

/// The `i32` value of the token `t`: its literal value where `t` is an
/// integer literal whose value fits in an `i32`, and `None` otherwise.
pub open spec fn parse_int(t: Seq<char>) -> Option<i32> {
    if is_int_literal(t) && in_i32(literal_val(t)) {
        Some(literal_val(t) as i32)
    } else {
        None
    }
}

/// The value of a digit run is never negative.
pub proof fn lemma_digits_val_nonneg(t: Seq<char>)
    requires
        all_digits(t),
    ensures
        digits_val(t) >= 0,
    decreases t.len(),
{
    if t.len() > 0 {
        lemma_digits_val_nonneg(t.drop_last());
    }
}

/// Extending a digit run multiplies its value by ten and adds the new digit,
/// so the value of a digit run is at least the value of any of its prefixes.
pub proof fn lemma_digits_val_prefix(t: Seq<char>, k: int)
    requires
        all_digits(t),
        0 <= k <= t.len(),
    ensures
        digits_val(t) >= digits_val(t.take(k)),
    decreases t.len(),
{
    if k < t.len() {
        assert(t.drop_last().take(k) =~= t.take(k));
        lemma_digits_val_prefix(t.drop_last(), k);
        lemma_digits_val_nonneg(t.drop_last());
    } else {
        assert(t.take(k) =~= t);
    }
}

/// The decimal digit character for `d`.
pub open spec fn digit_char(d: int) -> char
    recommends
        0 <= d <= 9,
{
    if d == 0 {
        '0'
    } else if d == 1 {
        '1'
    } else if d == 2 {
        '2'
    } else if d == 3 {
        '3'
    } else if d == 4 {
        '4'
    } else if d == 5 {
        '5'
    } else if d == 6 {
        '6'
    } else if d == 7 {
        '7'
    } else if d == 8 {
        '8'
    } else {
        '9'
    }
}

/// The decimal digits of `v`, most significant first and without leading
/// zeros (a single `'0'` for zero itself).
pub open spec fn dec_digits(v: nat) -> Seq<char>
    decreases v,
{
    if v < 10 {
        seq![digit_char(v as int)]
    } else {
        dec_digits(v / 10).push(digit_char((v % 10) as int))
    }
}

/// The decimal rendering of `n`: a minus sign where `n` is negative, then
/// the digits of its magnitude.
pub open spec fn dec_int(n: int) -> Seq<char> {
    if n < 0 {
        seq!['-'] + dec_digits((-n) as nat)
    } else {
        dec_digits(n as nat)
    }
}

/// The decimal digits of `v` form a digit run whose value is `v`.
pub proof fn lemma_dec_digits(v: nat)
    ensures
        dec_digits(v).len() >= 1,
        all_digits(dec_digits(v)),
        digits_val(dec_digits(v)) == v,
    decreases v,
{
    if v < 10 {
        assert(seq![digit_char(v as int)].drop_last() =~= Seq::<char>::empty());
        assert(seq![digit_char(v as int)][0] == digit_char(v as int));
        assert(seq![digit_char(v as int)].last() == digit_char(v as int));
        assert(digits_val(Seq::<char>::empty()) == 0);
        assert(digit_val(digit_char(v as int)) == v);
    } else {
        lemma_dec_digits(v / 10);
        let x = dec_digits(v / 10);
        let c = digit_char((v % 10) as int);
        assert(x.push(c).drop_last() =~= x);
        assert(x.push(c).last() == c);
        assert(all_digits(x.push(c))) by {
            assert(forall|i: int|
                0 <= i < x.len() ==> #[trigger] x.push(c)[i] == x[i] && is_digit(x[i]));
            assert(x.push(c)[x.len() as int] == c);
        }
        vstd::arithmetic::div_mod::lemma_fundamental_div_mod(v as int, 10);
        assert(digit_val(c) == v % 10);
    }
}

/// The rendering of `n` is an integer literal with value `n`, and holds no
/// whitespace.
pub proof fn lemma_dec_int(n: int)
    ensures
        dec_int(n).len() >= 1,
        is_int_literal(dec_int(n)),
        literal_val(dec_int(n)) == n,
        no_space(dec_int(n)),
{
    let t = dec_int(n);
    if n < 0 {
        let d = dec_digits((-n) as nat);
        lemma_dec_digits((-n) as nat);
        assert(t[0] == '-');
        assert(t.skip(1) =~= d);
        assert(no_space(t)) by {
            assert(forall|i: int|
                1 <= i < t.len() ==> #[trigger] t[i] == d[i - 1] && is_digit(d[i - 1]));
        }
    } else {
        lemma_dec_digits(n as nat);
        assert(is_digit(t[0]));
        assert(sign_len(t) == 0);
        assert(t.skip(0) =~= t);
    }
}

/// Parses the token `t` as a signed 32-bit decimal integer.
pub fn parse_i32(t: &Vec<char>) -> (r: Option<i32>)
    ensures
        r == parse_int(t@),
{
    let len = t.len();
    if len == 0 {
        return None;
    }
    let first = t[0];
    let neg = first == '-';
    let start: usize = if first == '-' || first == '+' {
        1
    } else {
        0
    };
    if start == len {
        return None;
    }
    proof {
        assert(sign_len(t@) == start as int);
    }
    let mut acc: u64 = 0;
    let mut i: usize = start;
    proof {
        assert(t@.subrange(start as int, start as int) =~= Seq::<char>::empty());
    }
    while i < len
        invariant
            start <= i <= len,
            len == t@.len(),
            start < len,
            start == sign_len(t@),
            neg == (t@[0] == '-' && start == 1),
            acc <= 0x8000_0000,
            acc == digits_val(t@.subrange(start as int, i as int)),
            all_digits(t@.subrange(start as int, i as int)),
        decreases len - i,
    {
        let c = t[i];
        if !('0' <= c && c <= '9') {
            proof {
                assert(t@.skip(start as int)[i - start] == t@[i as int]);
                assert(!is_int_literal(t@));
            }
            return None;
        }
        let d: u64 = (c as u32 - '0' as u32) as u64;
        acc = acc * 10 + d;
        proof {
            let pre = t@.subrange(start as int, i as int);
            let ext = t@.subrange(start as int, i as int + 1);
            assert(ext.drop_last() =~= pre);
            assert(ext.last() == t@[i as int]);
            assert(forall|j: int| 0 <= j < ext.len() ==> is_digit(#[trigger] ext[j]));
        }
        i = i + 1;
        if acc > 0x8000_0000 {
            proof {
                let digits = t@.skip(start as int);
                if all_digits(digits) {
                    assert(t@.subrange(start as int, i as int) =~= digits.take(i - start));
                    lemma_digits_val_prefix(digits, i - start);
                    assert(digits_val(digits) > 0x8000_0000);
                    assert(!in_i32(literal_val(t@)));
                } else {
                    assert(!is_int_literal(t@));
                }
            }
            return None;
        }
    }
    proof {
        assert(t@.subrange(start as int, len as int) =~= t@.skip(start as int));
        assert(is_int_literal(t@));
    }
    if neg {
        let v: i64 = -(acc as i64);
        proof {
            assert(literal_val(t@) == v as int);
        }
        Some(v as i32)
    } else {
        if acc > 0x7FFF_FFFF {
            proof {
                assert(literal_val(t@) > i32::MAX);
            }
            return None;
        }
        proof {
            assert(literal_val(t@) == acc as int);
        }
        Some(acc as i32)
    }
}

} // verus!
