//! Splitting an expression into whitespace-delimited tokens.
//!
//! A token is a maximal run of non-whitespace characters; runs of whitespace
//! of any length separate tokens, and leading or trailing whitespace produces
//! no empty tokens. Whitespace here is the fixed set of characters listed
//! in [`is_space`].

use vstd::prelude::*;

verus! {

/// The characters treated as whitespace: space, horizontal tab, line feed,
/// vertical tab, form feed, and carriage return.
pub open spec fn is_space(c: char) -> bool {
    c == ' ' || c == '\t' || c == '\n' || c == '\u{000B}' || c == '\u{000C}' || c == '\r'
}

/// Executable mirror of [`is_space`].
pub fn is_space_char(c: char) -> (r: bool)
    ensures
        r == is_space(c),
{
    c == ' ' || c == '\t' || c == '\n' || c == '\u{000B}' || c == '\u{000C}' || c == '\r'
}

/// The tokens of `s`, given that the characters of `cur` (a partial token)
/// directly precede `s`. Scans left to right: whitespace finishes the
/// partial token, any other character extends it.
pub open spec fn tokens_from(s: Seq<char>, cur: Seq<char>) -> Seq<Seq<char>>
    decreases s.len(),
{
    if s.len() == 0 {
        if cur.len() == 0 {
            Seq::empty()
        } else {
            seq![cur]
        }
    } else if is_space(s[0]) {
        if cur.len() == 0 {
            tokens_from(s.drop_first(), Seq::empty())
        } else {
            seq![cur] + tokens_from(s.drop_first(), Seq::empty())
        }
    } else {
        tokens_from(s.drop_first(), cur.push(s[0]))
    }
}

/// The whitespace-delimited tokens of `s`, in order.
pub open spec fn tokens_of(s: Seq<char>) -> Seq<Seq<char>> {
    tokens_from(s, Seq::empty())
}

/// Whether no character of `t` is whitespace.
pub open spec fn no_space(t: Seq<char>) -> bool {
    forall|i: int| 0 <= i < t.len() ==> !is_space(#[trigger] t[i])
}

/// Whether every character of `t` is whitespace.
pub open spec fn all_space(t: Seq<char>) -> bool {
    forall|i: int| 0 <= i < t.len() ==> is_space(#[trigger] t[i])
}

/// The token a run of whitespace finishes: none where it is empty.
pub open spec fn finished(cur: Seq<char>) -> Seq<Seq<char>> {
    if cur.len() == 0 {
        Seq::empty()
    } else {
        seq![cur]
    }
}

/// A run of non-whitespace characters only extends the partial token.
pub proof fn lemma_tokens_from_word(t: Seq<char>, rest: Seq<char>, cur: Seq<char>)
    requires
        no_space(t),
    ensures
        tokens_from(t + rest, cur) == tokens_from(rest, cur + t),
    decreases t.len(),
{
    if t.len() == 0 {
        assert(t + rest =~= rest);
        assert(cur + t =~= cur);
    } else {
        assert((t + rest)[0] == t[0]);
        assert((t + rest).drop_first() =~= t.drop_first() + rest);
        assert(cur.push(t[0]) + t.drop_first() =~= cur + t);
        lemma_tokens_from_word(t.drop_first(), rest, cur.push(t[0]));
    }
}

/// A run of whitespace finishes the partial token and starts afresh.
pub proof fn lemma_tokens_from_space_run(w: Seq<char>, rest: Seq<char>, cur: Seq<char>)
    requires
        all_space(w),
        w.len() >= 1,
    ensures
        tokens_from(w + rest, cur) == finished(cur) + tokens_from(rest, Seq::empty()),
    decreases w.len(),
{
    assert((w + rest)[0] == w[0]);
    assert((w + rest).drop_first() =~= w.drop_first() + rest);
    if w.len() == 1 {
        assert(w.drop_first() + rest =~= rest);
    } else {
        lemma_tokens_from_space_run(w.drop_first(), rest, Seq::empty());
    }
    assert(Seq::<Seq<char>>::empty() + tokens_from(rest, Seq::<char>::empty()) =~= tokens_from(
        rest,
        Seq::<char>::empty(),
    ));
}

/// Exchanging one whitespace run for another between the same surroundings
/// leaves the token sequence unchanged.
pub proof fn lemma_space_run_exchange(
    pre: Seq<char>,
    w1: Seq<char>,
    w2: Seq<char>,
    suf: Seq<char>,
    cur: Seq<char>,
)
    requires
        all_space(w1),
        w1.len() >= 1,
        all_space(w2),
        w2.len() >= 1,
    ensures
        tokens_from(pre + w1 + suf, cur) == tokens_from(pre + w2 + suf, cur),
    decreases pre.len(),
{
    if pre.len() == 0 {
        assert(pre + w1 + suf =~= w1 + suf);
        assert(pre + w2 + suf =~= w2 + suf);
        lemma_tokens_from_space_run(w1, suf, cur);
        lemma_tokens_from_space_run(w2, suf, cur);
    } else {
        let p0 = pre[0];
        assert((pre + w1 + suf)[0] == p0);
        assert((pre + w2 + suf)[0] == p0);
        assert((pre + w1 + suf).drop_first() =~= pre.drop_first() + w1 + suf);
        assert((pre + w2 + suf).drop_first() =~= pre.drop_first() + w2 + suf);
        if is_space(p0) {
            lemma_space_run_exchange(pre.drop_first(), w1, w2, suf, Seq::empty());
        } else {
            lemma_space_run_exchange(pre.drop_first(), w1, w2, suf, cur.push(p0));
        }
    }
}

/// Extra interior whitespace does not change the tokens: any whitespace run
/// separates exactly as a single space does.
pub proof fn lemma_extra_whitespace(pre: Seq<char>, w: Seq<char>, suf: Seq<char>)
    requires
        all_space(w),
        w.len() >= 1,
    ensures
        tokens_of(pre + w + suf) == tokens_of(pre + seq![' '] + suf),
{
    assert(all_space(seq![' '])) by {
        assert(seq![' '][0] == ' ');
    }
    lemma_space_run_exchange(pre, w, seq![' '], suf, Seq::empty());
}

/// Three space-separated words split into exactly those three tokens.
pub proof fn lemma_three_words(a: Seq<char>, op: char, b: Seq<char>)
    requires
        no_space(a),
        a.len() >= 1,
        no_space(b),
        b.len() >= 1,
        !is_space(op),
    ensures
        tokens_of(a + seq![' '] + seq![op] + seq![' '] + b) == seq![a, seq![op], b],
{
    let s = a + seq![' '] + seq![op] + seq![' '] + b;
    let r1 = seq![' '] + (seq![op] + (seq![' '] + b));
    let r2 = seq![op] + (seq![' '] + b);
    assert(all_space(seq![' '])) by {
        assert(seq![' '][0] == ' ');
    }
    assert(no_space(seq![op])) by {
        assert(seq![op][0] == op);
    }
    assert(s =~= a + r1);
    lemma_tokens_from_word(a, r1, Seq::empty());
    assert(Seq::<char>::empty() + a =~= a);
    lemma_tokens_from_space_run(seq![' '], r2, a);
    lemma_tokens_from_word(seq![op], seq![' '] + b, Seq::empty());
    assert(Seq::<char>::empty() + seq![op] =~= seq![op]);
    lemma_tokens_from_space_run(seq![' '], b, seq![op]);
    lemma_tokens_from_word(b, Seq::empty(), Seq::empty());
    assert(b + Seq::<char>::empty() =~= b);
    assert(Seq::<char>::empty() + b =~= b);
    assert(tokens_from(Seq::<char>::empty(), b) == seq![b]);
    assert(tokens_of(s) =~= seq![a, seq![op], b]);
}

/// The views of a sequence of character vectors.
pub open spec fn views_of(ts: Seq<Vec<char>>) -> Seq<Seq<char>> {
    ts.map_values(|t: Vec<char>| t@)
}

/// Splits `s` into its whitespace-delimited tokens.
pub fn tokenize(s: &str) -> (toks: Vec<Vec<char>>)
    ensures
        views_of(toks@) == tokens_of(s@),
{
    let n = s.unicode_len();
    let mut toks: Vec<Vec<char>> = Vec::new();
    let mut cur: Vec<char> = Vec::new();
    let mut i: usize = 0;
    proof {
        assert(s@.skip(0) =~= s@);
        assert(views_of(toks@) =~= Seq::<Seq<char>>::empty());
        assert(views_of(toks@) + tokens_from(s@, Seq::empty()) =~= tokens_from(s@, Seq::empty()));
    }
    while i < n
        invariant
            i <= n,
            n == s@.len(),
            tokens_of(s@) == views_of(toks@) + tokens_from(s@.skip(i as int), cur@),
        decreases n - i,
    {
        let ghost rest = s@.skip(i as int);
        let c = s.get_char(i);
        proof {
            assert(rest.len() == n - i);
            assert(rest[0] == s@[i as int]);
            assert(rest.drop_first() =~= s@.skip(i as int + 1));
        }
        if is_space_char(c) {
            if cur.len() == 0 {
                proof {
                    assert(cur@ =~= Seq::<char>::empty());
                    assert(tokens_from(rest, cur@) == tokens_from(s@.skip(i as int + 1), Seq::<char>::empty()));
                }
            } else {
                proof {
                    let emitted = tokens_from(s@.skip(i as int + 1), Seq::<char>::empty());
                    assert(tokens_from(rest, cur@) == seq![cur@] + emitted);
                    assert(views_of(toks@.push(cur)) =~= views_of(toks@) + seq![cur@]);
                    assert((views_of(toks@) + seq![cur@]) + emitted =~= views_of(toks@) + (
                    seq![cur@] + emitted));
                }
                toks.push(cur);
                cur = Vec::new();
                proof {
                    assert(cur@ =~= Seq::<char>::empty());
                }
            }
        } else {
            proof {
                assert(tokens_from(rest, cur@) == tokens_from(rest.drop_first(), cur@.push(s@[i as int])));
            }
            cur.push(c);
        }
        i = i + 1;
    }
    proof {
        assert(s@.skip(n as int) =~= Seq::<char>::empty());
    }
    if cur.len() > 0 {
        proof {
            assert(tokens_from(Seq::empty(), cur@) == seq![cur@]);
            assert(views_of(toks@.push(cur)) =~= views_of(toks@) + seq![cur@]);
        }
        toks.push(cur);
    } else {
        proof {
            assert(tokens_from(Seq::empty(), cur@) == Seq::<Seq<char>>::empty());
        }
    }
    proof {
        assert(views_of(toks@) =~= tokens_of(s@));
    }
    toks
}

} // verus!
