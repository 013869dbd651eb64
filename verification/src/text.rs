//! Character classes and trimming, over sequences of characters, and the
//! conversions between strings and vectors of characters.

use vstd::prelude::*;

verus! {

/// Whether `c` has the Unicode property White_Space.
pub open spec fn is_whitespace(c: char) -> bool {
    ||| '\u{9}' <= c <= '\u{d}'
    ||| c == ' '
    ||| c == '\u{85}'
    ||| c == '\u{a0}'
    ||| c == '\u{1680}'
    ||| '\u{2000}' <= c <= '\u{200a}'
    ||| c == '\u{2028}'
    ||| c == '\u{2029}'
    ||| c == '\u{202f}'
    ||| c == '\u{205f}'
    ||| c == '\u{3000}'
}

/// Whether every character of `s` is whitespace. The empty sequence is blank.
pub open spec fn all_whitespace(s: Seq<char>) -> bool {
    forall|i: int| 0 <= i < s.len() ==> is_whitespace(#[trigger] s[i])
}

/// `s` without its leading whitespace.
pub open spec fn trim_start(s: Seq<char>) -> Seq<char>
    decreases s.len(),
{
    if s.len() > 0 && is_whitespace(s[0]) {
        trim_start(s.drop_first())
    } else {
        s
    }
}

/// `s` without its trailing whitespace.
pub open spec fn trim_end(s: Seq<char>) -> Seq<char>
    decreases s.len(),
{
    if s.len() > 0 && is_whitespace(s.last()) {
        trim_end(s.drop_last())
    } else {
        s
    }
}

/// `s` without its leading and trailing whitespace.
pub open spec fn trim(s: Seq<char>) -> Seq<char> {
    trim_end(trim_start(s))
}

/// Whether `s[from..to]` is `s` with whitespace, and nothing but whitespace,
/// cut off at both ends, as far as it goes.
pub open spec fn is_trim_span(s: Seq<char>, from: int, to: int) -> bool {
    &&& 0 <= from <= to <= s.len()
    &&& all_whitespace(s.take(from))
    &&& all_whitespace(s.skip(to))
    &&& from < to ==> !is_whitespace(s[from]) && !is_whitespace(s[to - 1])
}

/// Cutting off `k` leading whitespace characters, where the next character is
/// not whitespace, is `trim_start`.
pub proof fn lemma_trim_start_skips(s: Seq<char>, k: int)
    requires
        0 <= k <= s.len(),
        all_whitespace(s.take(k)),
        k < s.len() ==> !is_whitespace(s[k]),
    ensures
        trim_start(s) == s.skip(k),
    decreases k,
{
    if k == 0 {
        assert(s.skip(0) =~= s);
    } else {
        assert(s.take(k)[0] == s[0]);
        let t = s.drop_first();
        assert forall|i: int| 0 <= i < k - 1 implies is_whitespace(#[trigger] t.take(k - 1)[i]) by {
            assert(t.take(k - 1)[i] == s.take(k)[i + 1]);
        }
        lemma_trim_start_skips(t, k - 1);
        assert(t.skip(k - 1) =~= s.skip(k));
    }
}

/// Cutting off all trailing whitespace characters from position `k` on, where
/// the character before is not whitespace, is `trim_end`.
pub proof fn lemma_trim_end_takes(s: Seq<char>, k: int)
    requires
        0 <= k <= s.len(),
        all_whitespace(s.skip(k)),
        0 < k ==> !is_whitespace(s[k - 1]),
    ensures
        trim_end(s) == s.take(k),
    decreases s.len() - k,
{
    if k == s.len() {
        assert(s.take(k) =~= s);
    } else {
        assert(s.skip(k)[s.len() - k - 1] == s.last());
        let t = s.drop_last();
        assert forall|i: int| 0 <= i < t.len() - k implies is_whitespace(#[trigger] t.skip(k)[i]) by {
            assert(t.skip(k)[i] == s.skip(k)[i]);
        }
        lemma_trim_end_takes(t, k);
        assert(t.take(k) =~= s.take(k));
    }
}

/// A span that leaves out whitespace alone, and all of it at both ends, holds
/// the trimmed sequence.
pub proof fn lemma_trim_span(s: Seq<char>, from: int, to: int)
    requires
        is_trim_span(s, from, to),
    ensures
        trim(s) == s.subrange(from, to),
{
    if from == to {
        // Nothing but whitespace: whatever `from` is, all of `s` goes.
        assert forall|i: int| 0 <= i < s.len() implies is_whitespace(#[trigger] s[i]) by {
            if i < from {
                assert(s.take(from)[i] == s[i]);
            } else {
                assert(s.skip(to)[i - to] == s[i]);
            }
        }
        assert(s.take(s.len() as int) =~= s);
        lemma_trim_start_skips(s, s.len() as int);
        assert(s.subrange(from, to) =~= s.skip(s.len() as int));
    } else {
        lemma_trim_start_skips(s, from);
        let t = s.skip(from);
        assert forall|i: int| 0 <= i < t.len() - (to - from) implies is_whitespace(
            #[trigger] t.skip(to - from)[i],
        ) by {
            assert(t.skip(to - from)[i] == s.skip(to)[i]);
        }
        lemma_trim_end_takes(t, to - from);
        assert(t.take(to - from) =~= s.subrange(from, to));
    }
}

/// The number of whitespace characters at the start of `s`.
pub open spec fn leading_whitespace(s: Seq<char>) -> nat
    decreases s.len(),
{
    if s.len() > 0 && is_whitespace(s[0]) {
        1 + leading_whitespace(s.drop_first())
    } else {
        0
    }
}

/// The number of whitespace characters at the end of `s`.
pub open spec fn trailing_whitespace(s: Seq<char>) -> nat
    decreases s.len(),
{
    if s.len() > 0 && is_whitespace(s.last()) {
        1 + trailing_whitespace(s.drop_last())
    } else {
        0
    }
}

/// The leading run is whitespace and ends at the first other character.
pub proof fn lemma_leading_whitespace(s: Seq<char>)
    ensures
        leading_whitespace(s) <= s.len(),
        all_whitespace(s.take(leading_whitespace(s) as int)),
        leading_whitespace(s) < s.len() ==> !is_whitespace(s[leading_whitespace(s) as int]),
    decreases s.len(),
{
    if s.len() > 0 && is_whitespace(s[0]) {
        let t = s.drop_first();
        lemma_leading_whitespace(t);
        let n = leading_whitespace(t) as int;
        assert forall|i: int| 0 <= i < n + 1 implies is_whitespace(#[trigger] s.take(n + 1)[i]) by {
            if i > 0 {
                assert(t.take(n)[i - 1] == s.take(n + 1)[i]);
            }
        }
    }
}

/// The trailing run is whitespace and begins after the last other character.
pub proof fn lemma_trailing_whitespace(s: Seq<char>)
    ensures
        trailing_whitespace(s) <= s.len(),
        all_whitespace(s.skip(s.len() - trailing_whitespace(s))),
        trailing_whitespace(s) < s.len() ==> !is_whitespace(
            s[s.len() - trailing_whitespace(s) - 1],
        ),
    decreases s.len(),
{
    if s.len() > 0 && is_whitespace(s.last()) {
        let t = s.drop_last();
        lemma_trailing_whitespace(t);
        let k = t.len() - trailing_whitespace(t);
        assert forall|i: int| 0 <= i < s.len() - k implies is_whitespace(#[trigger] s.skip(k)[i]) by {
            if i < t.len() - k {
                assert(t.skip(k)[i] == s.skip(k)[i]);
            }
        }
    }
}

/// Trimming keeps one contiguous part of the sequence, unchanged inside: what
/// is cut off at either end is whitespace, and what is kept neither begins nor
/// ends with whitespace.
pub proof fn lemma_trim_keeps_interior(s: Seq<char>)
    ensures
        exists|from: int, to: int| #[trigger]
            is_trim_span(s, from, to) && trim(s) == s.subrange(from, to),
{
    let from = leading_whitespace(s) as int;
    lemma_leading_whitespace(s);
    if from == s.len() {
        assert(is_trim_span(s, from, from)) by {
            assert(s.skip(from) =~= Seq::<char>::empty());
        }
        lemma_trim_span(s, from, from);
    } else {
        let to = s.len() - trailing_whitespace(s);
        lemma_trailing_whitespace(s);
        if to <= from {
            // `s[from]` is not whitespace, so the trailing run ends after it.
            assert(s.skip(to)[from - to] == s[from]);
        }
        assert(is_trim_span(s, from, to));
        lemma_trim_span(s, from, to);
    }
}

/// Tests a character for the White_Space property.
pub fn is_space(c: char) -> (b: bool)
    ensures
        b == is_whitespace(c),
{
    ('\u{9}' <= c && c <= '\u{d}') || c == ' ' || c == '\u{85}' || c == '\u{a0}' || c == '\u{1680}'
        || ('\u{2000}' <= c && c <= '\u{200a}') || c == '\u{2028}' || c == '\u{2029}' || c
        == '\u{202f}' || c == '\u{205f}' || c == '\u{3000}'
}

/// Finds the part of `v[from..to]` that trimming keeps.
pub(crate) fn trim_span(v: &Vec<char>, from: usize, to: usize) -> (r: (usize, usize))
    requires
        from <= to <= v.len(),
    ensures
        from <= r.0 <= r.1 <= to,
        v@.subrange(r.0 as int, r.1 as int) == trim(v@.subrange(from as int, to as int)),
{
    let ghost s = v@.subrange(from as int, to as int);
    let mut i: usize = from;
    while i < to && is_space(v[i])
        invariant
            from <= i <= to <= v.len(),
            s == v@.subrange(from as int, to as int),
            all_whitespace(s.take(i - from)),
        decreases to - i,
    {
        assert forall|k: int| 0 <= k < i + 1 - from implies is_whitespace(
            #[trigger] s.take(i + 1 - from)[k],
        ) by {
            if k < i - from {
                assert(s.take(i - from)[k] == s[k]);
            }
        }
        i += 1;
    }
    let mut j: usize = to;
    while i < j && is_space(v[j - 1])
        invariant
            from <= i <= j <= to <= v.len(),
            s == v@.subrange(from as int, to as int),
            all_whitespace(s.skip(j - from)),
        decreases j - i,
    {
        assert forall|k: int| 0 <= k < to - (j - 1) implies is_whitespace(
            #[trigger] s.skip(j - 1 - from)[k],
        ) by {
            if k > 0 {
                assert(s.skip(j - from)[k - 1] == s[j - 1 - from + k]);
            }
        }
        j -= 1;
    }
    proof {
        if i == j {
            // Had the first loop stopped at a character, the second could not
            // have come down to it.
            if i < to {
                assert(!is_whitespace(s[i - from]));
                assert(s.skip(j - from)[0] == s[i - from]);
            }
        }
        assert(is_trim_span(s, i - from, j - from));
        lemma_trim_span(s, i - from, j - from);
        assert(s.subrange(i - from, j - from) =~= v@.subrange(i as int, j as int));
    }
    (i, j)
}

/// `String::push` appends one character at the end of the string and leaves
/// what was there in place.
pub assume_specification[ String::push ](s: &mut String, ch: char)
    ensures
        final(s)@ == old(s)@.push(ch),
;

/// The characters of `s`, in order.
pub(crate) fn chars_of(s: &str) -> (v: Vec<char>)
    ensures
        v@ == s@,
{
    let mut v: Vec<char> = Vec::new();
    for c in it: s.chars()
        invariant
            v@ == it.seq().take(it.index()),
            it.seq() == s@,
    {
        v.push(c);
    }
    v
}

/// The string made of the characters `v[from..to]`.
pub(crate) fn string_of(v: &Vec<char>, from: usize, to: usize) -> (s: String)
    requires
        from <= to <= v.len(),
    ensures
        s@ == v@.subrange(from as int, to as int),
{
    let mut s = String::new();
    let mut i: usize = from;
    while i < to
        invariant
            from <= i <= to <= v.len(),
            s@ == v@.subrange(from as int, i as int),
        decreases to - i,
    {
        s.push(v[i]);
        i += 1;
    }
    s
}

} // verus!
