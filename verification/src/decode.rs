//! Decoding the tokens of a line as integers, written in decimal.
//!
//! A token denotes an unsigned number if it is one or more of the digits `0`
//! to `9`, with or without a `+` before them; a signed number may have a `-`
//! there instead. Nothing else is a number: no sign alone, no space, no
//! underscore, no fraction. A number is decoded as a given type only if the
//! type holds it.

use vstd::prelude::*;
use crate::reader::LineIO;
use crate::text::{all_whitespace, chars_of, is_whitespace, string_of};
use crate::tokens::{
    bounds_tokens, lemma_no_tokens_iff_blank, lemma_tokens_are_words, token_spans, tokens,
};

verus! {

/// Whether `c` is one of the digits `0` to `9`.
pub open spec fn is_digit(c: char) -> bool {
    '0' <= c <= '9'
}

/// The value of the digit `c`.
pub open spec fn digit_value(c: char) -> nat {
    (c as int - '0' as int) as nat
}

/// Whether `s` is one or more digits.
pub open spec fn is_digits(s: Seq<char>) -> bool {
    s.len() > 0 && forall|i: int| 0 <= i < s.len() ==> is_digit(#[trigger] s[i])
}

/// The number that the digits `s` write in decimal.
pub open spec fn digits_value(s: Seq<char>) -> nat
    decreases s.len(),
{
    if s.len() == 0 {
        0
    } else {
        10 * digits_value(s.drop_last()) + digit_value(s.last())
    }
}

/// The unsigned number that the token `t` denotes, if it denotes one.
pub open spec fn unsigned_value(t: Seq<char>) -> Option<nat> {
    let digits = if t.len() > 0 && t[0] == '+' {
        t.drop_first()
    } else {
        t
    };
    if is_digits(digits) {
        Some(digits_value(digits))
    } else {
        None
    }
}

/// The signed number that the token `t` denotes, if it denotes one.
pub open spec fn signed_value(t: Seq<char>) -> Option<int> {
    if t.len() > 0 && t[0] == '-' {
        if is_digits(t.drop_first()) {
            Some(-(digits_value(t.drop_first()) as int))
        } else {
            None
        }
    } else {
        match unsigned_value(t) {
            Some(n) => Some(n as int),
            None => None,
        }
    }
}

/// The token `t` as a `usize`, if it denotes an unsigned number that fits.
pub open spec fn as_usize(t: Seq<char>) -> Option<usize> {
    match unsigned_value(t) {
        Some(n) if n <= usize::MAX => Some(n as usize),
        _ => None,
    }
}

/// The token `t` as a `u32`, if it denotes an unsigned number that fits.
pub open spec fn as_u32(t: Seq<char>) -> Option<u32> {
    match unsigned_value(t) {
        Some(n) if n <= u32::MAX => Some(n as u32),
        _ => None,
    }
}

/// The token `t` as an `i32`, if it denotes a signed number that fits.
pub open spec fn as_i32(t: Seq<char>) -> Option<i32> {
    match signed_value(t) {
        Some(n) if i32::MIN <= n <= i32::MAX => Some(n as i32),
        _ => None,
    }
}

/// Whether `values` are what the tokens `toks` denote under `value`, one for
/// one and in order.
pub open spec fn decodes_to<T>(
    toks: Seq<Seq<char>>,
    value: spec_fn(Seq<char>) -> Option<T>,
    values: Seq<T>,
) -> bool {
    &&& values.len() == toks.len()
    &&& forall|i: int| 0 <= i < toks.len() ==> value(#[trigger] toks[i]) == Some(values[i])
}

/// Whether the token at `index` is the first of `toks` that denotes nothing
/// under `value`.
pub open spec fn first_rejected<T>(
    toks: Seq<Seq<char>>,
    value: spec_fn(Seq<char>) -> Option<T>,
    index: int,
) -> bool {
    &&& 0 <= index < toks.len()
    &&& value(toks[index]) is None
    &&& forall|i: int| 0 <= i < index ==> value(#[trigger] toks[i]) is Some
}

/// What the decoding of a line returns when a token is no number of the type
/// asked for.
#[derive(Debug, Clone, PartialEq, Eq)]
pub struct ParseError {
    /// The first token that was refused.
    pub token: String,
    /// The place of that token among the tokens of the line, from zero.
    pub index: usize,
    /// The whole line.
    pub line: String,
}

/// The number written by a prefix of `s` is at most the number written by `s`.
pub proof fn lemma_digits_value_grows(s: Seq<char>, k: int)
    requires
        0 <= k <= s.len(),
    ensures
        digits_value(s.take(k)) <= digits_value(s),
    decreases s.len() - k,
{
    if k == s.len() {
        assert(s.take(k) =~= s);
    } else {
        lemma_digits_value_grows(s.drop_last(), k);
        assert(s.drop_last().take(k) =~= s.take(k));
    }
}

/// Decodes the digits `v[from..to]`, as far as the number is at most `max`.
fn parse_digits(v: &Vec<char>, from: usize, to: usize, max: u64) -> (r: Option<u64>)
    requires
        from <= to <= v.len(),
    ensures
        r == if is_digits(v@.subrange(from as int, to as int)) && digits_value(
            v@.subrange(from as int, to as int),
        ) <= max {
            Some(digits_value(v@.subrange(from as int, to as int)) as u64)
        } else {
            None
        },
{
    let ghost d = v@.subrange(from as int, to as int);
    if from == to {
        return None;
    }
    let mut acc: u64 = 0;
    let mut i: usize = from;
    while i < to
        invariant
            from <= i <= to <= v.len(),
            d == v@.subrange(from as int, to as int),
            forall|k: int| 0 <= k < i - from ==> is_digit(#[trigger] d[k]),
            acc == digits_value(d.take(i - from)),
            acc <= max,
        decreases to - i,
    {
        let c: char = v[i];
        if !('0' <= c && c <= '9') {
            assert(!is_digit(d[i - from]));
            return None;
        }
        let digit: u64 = (c as u64) - ('0' as u64);
        proof {
            let next = d.take(i + 1 - from);
            assert(next.drop_last() =~= d.take(i - from));
            assert(next.last() == c);
            assert(digits_value(next) == 10 * acc + digit);
            lemma_digits_value_grows(d, i + 1 - from);
        }
        if digit > max || acc > (max - digit) / 10 {
            return None;
        }
        acc = 10 * acc + digit;
        i += 1;
    }
    assert(d.take(to - from) =~= d);
    Some(acc)
}

/// Decodes the token `v[from..to]` as an unsigned number, as far as the number
/// is at most `max`.
fn parse_unsigned(v: &Vec<char>, from: usize, to: usize, max: u64) -> (r: Option<u64>)
    requires
        from <= to <= v.len(),
    ensures
        r == match unsigned_value(v@.subrange(from as int, to as int)) {
            Some(n) if n <= max => Some(n as u64),
            _ => None,
        },
{
    let ghost t = v@.subrange(from as int, to as int);
    if from < to && v[from] == '+' {
        assert(t.drop_first() =~= v@.subrange(from + 1, to as int));
        parse_digits(v, from + 1, to, max)
    } else {
        parse_digits(v, from, to, max)
    }
}

/// Decodes the token `v[from..to]` as an `i32`.
fn parse_i32(v: &Vec<char>, from: usize, to: usize) -> (r: Option<i32>)
    requires
        from <= to <= v.len(),
    ensures
        r == as_i32(v@.subrange(from as int, to as int)),
{
    let ghost t = v@.subrange(from as int, to as int);
    if from < to && v[from] == '-' {
        assert(t.drop_first() =~= v@.subrange(from + 1, to as int));
        match parse_digits(v, from + 1, to, 2147483648) {
            Some(n) => Some((0 - (n as i64)) as i32),
            None => None,
        }
    } else {
        match parse_unsigned(v, from, to, 2147483647) {
            Some(n) => Some(n as i32),
            None => None,
        }
    }
}

impl LineIO {
    /// The tokens of the line `s`, in order: what stands between its runs of
    /// whitespace. None is empty, and none holds whitespace.
    pub fn to_tokens(s: &String) -> (r: Vec<String>)
        ensures
            r@.len() == tokens(s@).len(),
            forall|i: int| 0 <= i < r@.len() ==> (#[trigger] r@[i])@ == tokens(s@)[i],
            forall|i: int| 0 <= i < r@.len() ==> (#[trigger] r@[i])@.len() > 0,
            forall|i: int, j: int|
                0 <= i < r@.len() && 0 <= j < r@[i]@.len() ==> !is_whitespace(
                    #[trigger] r@[i]@[j],
                ),
            all_whitespace(s@) ==> r@.len() == 0,
    {
        let v = chars_of(s.as_str());
        let spans = token_spans(&v);
        let mut out: Vec<String> = Vec::new();
        let mut k: usize = 0;
        while k < spans.len()
            invariant
                k <= spans@.len(),
                v@ == s@,
                bounds_tokens(v@, spans@),
                out@.len() == k,
                forall|i: int| 0 <= i < k ==> (#[trigger] out@[i])@ == tokens(s@)[i],
            decreases spans@.len() - k,
        {
            let span = spans[k];
            out.push(string_of(&v, span.0, span.1));
            k += 1;
        }
        proof {
            lemma_no_tokens_iff_blank(s@);
            assert forall|i: int| 0 <= i < out@.len() implies {
                &&& (#[trigger] out@[i])@.len() > 0
                &&& forall|j: int|
                    0 <= j < out@[i]@.len() ==> !is_whitespace(#[trigger] out@[i]@[j])
            } by {
                lemma_tokens_are_words(s@, i);
            }
        }
        out
    }

    /// Decodes the tokens of the line `s` as `usize` numbers, in order. A line
    /// without tokens gives no numbers. The first token that is no such number
    /// is reported, and nothing is decoded then.
    pub fn to_usize(s: &String) -> (r: Result<Vec<usize>, ParseError>)
        ensures
            match r {
                Ok(values) => decodes_to(tokens(s@), |t: Seq<char>| as_usize(t), values@),
                Err(e) => {
                    &&& first_rejected(tokens(s@), |t: Seq<char>| as_usize(t), e.index as int)
                    &&& e.token@ == tokens(s@)[e.index as int]
                    &&& e.line@ == s@
                },
            },
            all_whitespace(s@) ==> r is Ok && r->Ok_0@.len() == 0,
    {
        let v = chars_of(s.as_str());
        let spans = token_spans(&v);
        let mut out: Vec<usize> = Vec::new();
        let mut k: usize = 0;
        proof {
            lemma_no_tokens_iff_blank(s@);
        }
        while k < spans.len()
            invariant
                k <= spans@.len(),
                v@ == s@,
                bounds_tokens(v@, spans@),
                all_whitespace(s@) ==> spans@.len() == 0,
                out@.len() == k,
                forall|i: int| 0 <= i < k ==> as_usize(#[trigger] tokens(s@)[i]) == Some(out@[i]),
            decreases spans@.len() - k,
        {
            let span = spans[k];
            match parse_unsigned(&v, span.0, span.1, usize::MAX as u64) {
                Some(n) => out.push(n as usize),
                None => {
                    return Err(
                        ParseError { token: string_of(&v, span.0, span.1), index: k, line: s.clone() },
                    );
                },
            }
            k += 1;
        }
        Ok(out)
    }

    /// Decodes the tokens of the line `s` as `u32` numbers, in order. A line
    /// without tokens gives no numbers. The first token that is no such number
    /// is reported, and nothing is decoded then.
    pub fn to_u32(s: &String) -> (r: Result<Vec<u32>, ParseError>)
        ensures
            match r {
                Ok(values) => decodes_to(tokens(s@), |t: Seq<char>| as_u32(t), values@),
                Err(e) => {
                    &&& first_rejected(tokens(s@), |t: Seq<char>| as_u32(t), e.index as int)
                    &&& e.token@ == tokens(s@)[e.index as int]
                    &&& e.line@ == s@
                },
            },
            all_whitespace(s@) ==> r is Ok && r->Ok_0@.len() == 0,
    {
        let v = chars_of(s.as_str());
        let spans = token_spans(&v);
        let mut out: Vec<u32> = Vec::new();
        let mut k: usize = 0;
        proof {
            lemma_no_tokens_iff_blank(s@);
        }
        while k < spans.len()
            invariant
                k <= spans@.len(),
                v@ == s@,
                bounds_tokens(v@, spans@),
                all_whitespace(s@) ==> spans@.len() == 0,
                out@.len() == k,
                forall|i: int| 0 <= i < k ==> as_u32(#[trigger] tokens(s@)[i]) == Some(out@[i]),
            decreases spans@.len() - k,
        {
            let span = spans[k];
            match parse_unsigned(&v, span.0, span.1, 4294967295) {
                Some(n) => out.push(n as u32),
                None => {
                    return Err(
                        ParseError { token: string_of(&v, span.0, span.1), index: k, line: s.clone() },
                    );
                },
            }
            k += 1;
        }
        Ok(out)
    }

    /// Decodes the tokens of the line `s` as `i32` numbers, in order. A line
    /// without tokens gives no numbers. The first token that is no such number
    /// is reported, and nothing is decoded then.
    pub fn to_i32(s: &String) -> (r: Result<Vec<i32>, ParseError>)
        ensures
            match r {
                Ok(values) => decodes_to(tokens(s@), |t: Seq<char>| as_i32(t), values@),
                Err(e) => {
                    &&& first_rejected(tokens(s@), |t: Seq<char>| as_i32(t), e.index as int)
                    &&& e.token@ == tokens(s@)[e.index as int]
                    &&& e.line@ == s@
                },
            },
            all_whitespace(s@) ==> r is Ok && r->Ok_0@.len() == 0,
    {
        let v = chars_of(s.as_str());
        let spans = token_spans(&v);
        let mut out: Vec<i32> = Vec::new();
        let mut k: usize = 0;
        proof {
            lemma_no_tokens_iff_blank(s@);
        }
        while k < spans.len()
            invariant
                k <= spans@.len(),
                v@ == s@,
                bounds_tokens(v@, spans@),
                all_whitespace(s@) ==> spans@.len() == 0,
                out@.len() == k,
                forall|i: int| 0 <= i < k ==> as_i32(#[trigger] tokens(s@)[i]) == Some(out@[i]),
            decreases spans@.len() - k,
        {
            let span = spans[k];
            match parse_i32(&v, span.0, span.1) {
                Some(n) => out.push(n),
                None => {
                    return Err(
                        ParseError { token: string_of(&v, span.0, span.1), index: k, line: s.clone() },
                    );
                },
            }
            k += 1;
        }
        Ok(out)
    }
}

} // verus!
