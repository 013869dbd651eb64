//! The tokens of a line: its maximal runs of characters that are not
//! whitespace, in order.

use vstd::prelude::*;
use crate::text::{all_whitespace, is_space, is_whitespace};

verus! {

/// The length of the run of characters other than whitespace at the start of
/// `s`.
pub open spec fn word_len(s: Seq<char>) -> nat
    decreases s.len(),
{
    if s.len() > 0 && !is_whitespace(s[0]) {
        1 + word_len(s.drop_first())
    } else {
        0
    }
}

/// The tokens of `s`: what is left of it between its runs of whitespace, in
/// order. None of them is empty.
pub open spec fn tokens(s: Seq<char>) -> Seq<Seq<char>>
    decreases s.len(),
    via tokens_terminates
{
    if s.len() == 0 {
        Seq::empty()
    } else if is_whitespace(s[0]) {
        tokens(s.drop_first())
    } else {
        seq![s.take(word_len(s) as int)] + tokens(s.skip(word_len(s) as int))
    }
}

#[via_fn]
proof fn tokens_terminates(s: Seq<char>) {
    lemma_word_len(s);
}

/// The run at the start holds no whitespace and ends before the first
/// whitespace character, or with `s`.
pub proof fn lemma_word_len(s: Seq<char>)
    ensures
        word_len(s) <= s.len(),
        s.len() > 0 && !is_whitespace(s[0]) ==> word_len(s) > 0,
        forall|i: int| 0 <= i < word_len(s) ==> !is_whitespace(#[trigger] s[i]),
        word_len(s) < s.len() ==> is_whitespace(s[word_len(s) as int]),
    decreases s.len(),
{
    if s.len() > 0 && !is_whitespace(s[0]) {
        let t = s.drop_first();
        lemma_word_len(t);
        assert forall|i: int| 0 <= i < word_len(s) implies !is_whitespace(#[trigger] s[i]) by {
            if i > 0 {
                assert(t[i - 1] == s[i]);
            }
        }
    }
}

/// A prefix of `s` that holds no whitespace and ends before a whitespace
/// character, or with `s`, is the run at the start of `s`.
pub proof fn lemma_word_is_first(s: Seq<char>, n: int)
    requires
        0 <= n <= s.len(),
        forall|i: int| 0 <= i < n ==> !is_whitespace(#[trigger] s[i]),
        n < s.len() ==> is_whitespace(s[n]),
    ensures
        word_len(s) == n,
    decreases n,
{
    if n > 0 {
        let t = s.drop_first();
        assert(!is_whitespace(s[0]));
        assert forall|i: int| 0 <= i < n - 1 implies !is_whitespace(#[trigger] t[i]) by {
            assert(t[i] == s[i + 1]);
        }
        if n < s.len() {
            assert(t[n - 1] == s[n]);
        }
        lemma_word_is_first(t, n - 1);
    }
}

/// A line has no token exactly when it holds nothing but whitespace; the empty
/// line is such a line.
pub proof fn lemma_no_tokens_iff_blank(s: Seq<char>)
    ensures
        tokens(s).len() == 0 <==> all_whitespace(s),
    decreases s.len(),
{
    if s.len() > 0 && is_whitespace(s[0]) {
        let t = s.drop_first();
        lemma_no_tokens_iff_blank(t);
        if all_whitespace(t) {
            assert forall|i: int| 0 <= i < s.len() implies is_whitespace(#[trigger] s[i]) by {
                if i > 0 {
                    assert(t[i - 1] == s[i]);
                }
            }
        }
        if all_whitespace(s) {
            assert forall|i: int| 0 <= i < t.len() implies is_whitespace(#[trigger] t[i]) by {
                assert(t[i] == s[i + 1]);
            }
        }
    }
}

/// Every token holds at least one character and no whitespace.
pub proof fn lemma_tokens_are_words(s: Seq<char>, k: int)
    requires
        0 <= k < tokens(s).len(),
    ensures
        tokens(s)[k].len() > 0,
        forall|i: int| 0 <= i < tokens(s)[k].len() ==> !is_whitespace(#[trigger] tokens(s)[k][i]),
    decreases s.len(),
{
    if s.len() > 0 {
        if is_whitespace(s[0]) {
            lemma_tokens_are_words(s.drop_first(), k);
        } else {
            lemma_word_len(s);
            if k > 0 {
                lemma_tokens_are_words(s.skip(word_len(s) as int), k - 1);
            }
        }
    }
}

/// The pieces of `s` that lie between the bounds given in `spans`, in order.
spec fn cut(s: Seq<char>, spans: Seq<(usize, usize)>) -> Seq<Seq<char>> {
    Seq::new(spans.len(), |k: int| s.subrange(spans[k].0 as int, spans[k].1 as int))
}

/// Whether `spans` gives, for each token of `s` in order, where it begins and
/// where it ends.
pub open spec fn bounds_tokens(s: Seq<char>, spans: Seq<(usize, usize)>) -> bool {
    &&& spans.len() == tokens(s).len()
    &&& forall|k: int|
        0 <= k < spans.len() ==> {
            &&& (#[trigger] spans[k]).0 <= spans[k].1 <= s.len()
            &&& s.subrange(spans[k].0 as int, spans[k].1 as int) == tokens(s)[k]
        }
}

/// Finds the tokens of `v`: for each, in order, where it begins and where it
/// ends.
pub(crate) fn token_spans(v: &Vec<char>) -> (spans: Vec<(usize, usize)>)
    ensures
        bounds_tokens(v@, spans@),
{
    let mut spans: Vec<(usize, usize)> = Vec::new();
    let mut i: usize = 0;
    assert(v@.skip(0) =~= v@);
    assert(cut(v@, spans@) + tokens(v@) =~= tokens(v@));
    while i < v.len()
        invariant
            i <= v.len(),
            forall|k: int|
                0 <= k < spans@.len() ==> (#[trigger] spans@[k]).0 <= spans@[k].1 <= v@.len(),
            tokens(v@) == cut(v@, spans@) + tokens(v@.skip(i as int)),
        decreases v.len() - i,
    {
        let ghost rest = v@.skip(i as int);
        if is_space(v[i]) {
            assert(rest.drop_first() =~= v@.skip(i + 1));
            i += 1;
        } else {
            let start: usize = i;
            while i < v.len() && !is_space(v[i])
                invariant
                    start <= i <= v.len(),
                    rest == v@.skip(start as int),
                    forall|k: int| 0 <= k < i - start ==> !is_whitespace(#[trigger] rest[k]),
                decreases v.len() - i,
            {
                i += 1;
            }
            proof {
                lemma_word_is_first(rest, i - start);
                assert(rest.take(i - start) =~= v@.subrange(start as int, i as int));
                assert(rest.skip(i - start) =~= v@.skip(i as int));
                let ghost before = spans@;
                assert(cut(v@, before.push((start, i))) =~= cut(v@, before) + seq![
                    v@.subrange(start as int, i as int),
                ]);
                assert(cut(v@, before) + (seq![v@.subrange(start as int, i as int)] + tokens(
                    v@.skip(i as int),
                )) =~= cut(v@, before) + seq![v@.subrange(start as int, i as int)] + tokens(
                    v@.skip(i as int),
                ));
            }
            spans.push((start, i));
        }
    }
    assert(tokens(v@) =~= cut(v@, spans@));
    spans
}

} // verus!
