//! Raw lines, comments, blank lines and data lines of a text, as functions on
//! sequences of characters, and what holds of them.
//!
//! A text is a sequence of characters. Its raw lines are the pieces that end
//! with each line feed, and what follows the last line feed, if anything does.
//! A raw line is a comment if it begins with `#`, blank if it is a line feed
//! and nothing else, and a data line otherwise. Reading yields the data lines
//! in order, each trimmed of surrounding whitespace.

use vstd::prelude::*;
use crate::text::trim;

verus! {

/// The length of the first raw line of `s`: up to and including the first
/// line feed, or all of `s` where it holds none.
pub open spec fn raw_line_len(s: Seq<char>) -> nat
    decreases s.len(),
{
    if s.len() == 0 {
        0
    } else if s[0] == '\n' {
        1
    } else {
        1 + raw_line_len(s.drop_first())
    }
}

/// Whether a raw line is a comment: its first character is `#`.
pub open spec fn is_comment(raw: Seq<char>) -> bool {
    raw.len() > 0 && raw[0] == '#'
}

/// Whether a raw line is blank: a line feed with nothing before it.
pub open spec fn is_blank(raw: Seq<char>) -> bool {
    raw.len() == 1 && raw[0] == '\n'
}

/// Whether `raw` is one whole raw line of a text in which `rest` follows it:
/// it is not empty, holds no line feed but at its end, and ends with one unless
/// the text ends with it.
pub open spec fn is_raw_line(raw: Seq<char>, rest: Seq<char>) -> bool {
    &&& raw.len() > 0
    &&& forall|i: int| 0 <= i < raw.len() - 1 ==> raw[i] != '\n'
    &&& raw.last() == '\n' || rest.len() == 0
}

/// One step of reading the text `s`: the next data line, trimmed, if there is
/// one, and the text that is left unread after the step. Where no data line is
/// left the step reads to the end.
pub open spec fn advance(s: Seq<char>) -> (Option<Seq<char>>, Seq<char>)
    decreases s.len(),
    via advance_terminates
{
    if s.len() == 0 {
        (None, s)
    } else {
        let n = raw_line_len(s) as int;
        let raw = s.take(n);
        if is_comment(raw) || is_blank(raw) {
            advance(s.skip(n))
        } else {
            (Some(trim(raw)), s.skip(n))
        }
    }
}

#[via_fn]
proof fn advance_terminates(s: Seq<char>) {
    lemma_raw_line_len(s);
}

/// The data lines of the text `s`, in order, each trimmed: what reading yields
/// step by step until the end.
pub open spec fn data_lines(s: Seq<char>) -> Seq<Seq<char>>
    decreases s.len(),
    via data_lines_terminates
{
    match advance(s).0 {
        Some(line) => seq![line] + data_lines(advance(s).1),
        None => Seq::empty(),
    }
}

#[via_fn]
proof fn data_lines_terminates(s: Seq<char>) {
    lemma_advance_consumes(s);
}

/// The first raw line of a text that is not empty holds at least one character,
/// no line feed before its last one, and ends with a line feed unless it is the
/// whole text.
pub proof fn lemma_raw_line_len(s: Seq<char>)
    ensures
        raw_line_len(s) <= s.len(),
        s.len() > 0 ==> raw_line_len(s) > 0,
        forall|i: int| 0 <= i < raw_line_len(s) - 1 ==> s[i] != '\n',
        raw_line_len(s) < s.len() ==> s[raw_line_len(s) - 1] == '\n',
    decreases s.len(),
{
    if s.len() > 0 && s[0] != '\n' {
        let t = s.drop_first();
        lemma_raw_line_len(t);
        assert forall|i: int| 0 <= i < raw_line_len(s) - 1 implies s[i] != '\n' by {
            if i > 0 {
                assert(t[i - 1] == s[i]);
            }
        }
    }
}

/// A prefix of `s` that holds no line feed but possibly at its end, and that
/// ends with a line feed or with `s`, is the first raw line of `s`.
pub proof fn lemma_raw_line_is_first(s: Seq<char>, n: int)
    requires
        0 < n <= s.len(),
        forall|i: int| 0 <= i < n - 1 ==> s[i] != '\n',
        s[n - 1] == '\n' || n == s.len(),
    ensures
        raw_line_len(s) == n,
    decreases n,
{
    if n > 1 {
        let t = s.drop_first();
        assert(s[0] != '\n');
        assert(t[n - 2] == s[n - 1]);
        assert forall|i: int| 0 <= i < n - 2 implies t[i] != '\n' by {
            assert(t[i] == s[i + 1]);
        }
        lemma_raw_line_is_first(t, n - 1);
    } else if s[0] != '\n' {
        assert(raw_line_len(s.drop_first()) == 0);
    }
}

/// A step that yields a line leaves less unread than there was; one that
/// yields none leaves nothing unread. What is left is the end of what was there.
pub proof fn lemma_advance_consumes(s: Seq<char>)
    ensures
        advance(s).1.len() <= s.len(),
        advance(s).1 == s.skip(s.len() - advance(s).1.len()),
        advance(s).0 is Some ==> advance(s).1.len() < s.len(),
        advance(s).0 is None ==> advance(s).1.len() == 0,
    decreases s.len(),
{
    if s.len() == 0 {
        assert(s.skip(0) =~= s);
    } else {
        lemma_raw_line_len(s);
        let n = raw_line_len(s) as int;
        let rest = s.skip(n);
        if is_comment(s.take(n)) || is_blank(s.take(n)) {
            lemma_advance_consumes(rest);
            let m = rest.len() - advance(rest).1.len();
            assert(rest.skip(m) =~= s.skip(n + m));
        }
    }
}

/// Whether the text `s` ends where a raw line ends: it is empty or its last
/// character is a line feed.
pub open spec fn ends_with_line(s: Seq<char>) -> bool {
    s.len() == 0 || s.last() == '\n'
}

/// A whole raw line at the start of a text is the text's first raw line.
pub proof fn lemma_first_raw_line(raw: Seq<char>, rest: Seq<char>)
    requires
        is_raw_line(raw, rest),
    ensures
        raw_line_len(raw + rest) == raw.len(),
        (raw + rest).take(raw.len() as int) == raw,
        (raw + rest).skip(raw.len() as int) == rest,
{
    let s = raw + rest;
    let n = raw.len() as int;
    assert forall|i: int| 0 <= i < n - 1 implies s[i] != '\n' by {
        assert(s[i] == raw[i]);
    }
    assert(s[n - 1] == raw.last());
    lemma_raw_line_is_first(s, n);
    assert(s.take(n) =~= raw);
    assert(s.skip(n) =~= rest);
}

/// Reading a text that is empty yields no line.
pub proof fn lemma_empty_text_ends()
    ensures
        advance(Seq::empty()) == (None::<Seq<char>>, Seq::<char>::empty()),
        data_lines(Seq::empty()) == Seq::<Seq<char>>::empty(),
{
}

/// A step yields no line exactly when the text holds no data line.
pub proof fn lemma_ends_iff_no_data_lines(s: Seq<char>)
    ensures
        advance(s).0 is None <==> data_lines(s).len() == 0,
{
}

/// Once a step has yielded no line, nothing is left unread, and every later
/// step yields no line either and changes nothing.
pub proof fn lemma_end_is_final(s: Seq<char>)
    requires
        advance(s).0 is None,
    ensures
        advance(s).1.len() == 0,
        advance(advance(s).1) == advance(s),
{
    lemma_advance_consumes(s);
}

/// A comment is passed over: a step on a text that begins with a comment line
/// is the step on what follows that line.
pub proof fn lemma_comment_is_skipped(raw: Seq<char>, rest: Seq<char>)
    requires
        is_raw_line(raw, rest),
        is_comment(raw),
    ensures
        advance(raw + rest) == advance(rest),
        data_lines(raw + rest) == data_lines(rest),
{
    lemma_first_raw_line(raw, rest);
}

/// A blank line is passed over: a step on a text that begins with a blank line
/// is the step on what follows that line.
pub proof fn lemma_blank_is_skipped(rest: Seq<char>)
    ensures
        advance(seq!['\n'] + rest) == advance(rest),
        data_lines(seq!['\n'] + rest) == data_lines(rest),
{
    lemma_first_raw_line(seq!['\n'], rest);
}

/// A raw line that is neither a comment nor blank is yielded, trimmed, and the
/// step leaves exactly what follows the line.
pub proof fn lemma_data_line_is_yielded(raw: Seq<char>, rest: Seq<char>)
    requires
        is_raw_line(raw, rest),
        !is_comment(raw),
        !is_blank(raw),
    ensures
        advance(raw + rest) == (Some(trim(raw)), rest),
        data_lines(raw + rest) == seq![trim(raw)] + data_lines(rest),
{
    lemma_first_raw_line(raw, rest);
}

/// Where a text ends with the end of a line, the data lines of the text and of
/// what is put behind it are those of the one followed by those of the other.
pub proof fn lemma_data_lines_concat(before: Seq<char>, after: Seq<char>)
    requires
        ends_with_line(before),
    ensures
        data_lines(before + after) == data_lines(before) + data_lines(after),
    decreases before.len(),
{
    if before.len() == 0 {
        assert(before + after =~= after);
        assert(data_lines(before) + data_lines(after) =~= data_lines(after));
    } else {
        lemma_raw_line_len(before);
        let n = raw_line_len(before) as int;
        let raw = before.take(n);
        let tail = before.skip(n);
        assert(raw.last() == before[n - 1]);
        assert forall|i: int| 0 <= i < raw.len() - 1 implies raw[i] != '\n' by {
            assert(raw[i] == before[i]);
        }
        if tail.len() > 0 {
            assert(tail.last() == before.last());
        }
        assert(before =~= raw + tail);
        assert(before + after =~= raw + (tail + after));
        lemma_first_raw_line(raw, tail);
        lemma_first_raw_line(raw, tail + after);
        lemma_data_lines_concat(tail, after);
        if !is_comment(raw) && !is_blank(raw) {
            assert(seq![trim(raw)] + (data_lines(tail) + data_lines(after)) =~= (seq![trim(raw)]
                + data_lines(tail)) + data_lines(after));
        }
    }
}

/// A comment line is invisible wherever it stands: the data lines of a text
/// are those of the text without the comment line.
pub proof fn lemma_comment_is_invisible(before: Seq<char>, raw: Seq<char>, after: Seq<char>)
    requires
        ends_with_line(before),
        is_raw_line(raw, after),
        is_comment(raw),
    ensures
        data_lines(before + raw + after) == data_lines(before + after),
{
    assert(before + raw + after =~= before + (raw + after));
    lemma_data_lines_concat(before, raw + after);
    lemma_comment_is_skipped(raw, after);
    lemma_data_lines_concat(before, after);
}

/// A blank line is invisible wherever it stands: the data lines of a text are
/// those of the text without the blank line.
pub proof fn lemma_blank_is_invisible(before: Seq<char>, after: Seq<char>)
    requires
        ends_with_line(before),
    ensures
        data_lines(before + seq!['\n'] + after) == data_lines(before + after),
{
    assert(before + seq!['\n'] + after =~= before + (seq!['\n'] + after));
    lemma_data_lines_concat(before, seq!['\n'] + after);
    lemma_blank_is_skipped(after);
    lemma_data_lines_concat(before, after);
}

/// A raw line that is neither a comment nor blank is yielded, trimmed, in its
/// place among the data lines of the text, wherever it stands.
pub proof fn lemma_data_line_in_place(before: Seq<char>, raw: Seq<char>, after: Seq<char>)
    requires
        ends_with_line(before),
        is_raw_line(raw, after),
        !is_comment(raw),
        !is_blank(raw),
    ensures
        data_lines(before + raw + after) == data_lines(before) + seq![trim(raw)] + data_lines(
            after,
        ),
{
    assert(before + raw + after =~= before + (raw + after));
    lemma_data_lines_concat(before, raw + after);
    lemma_data_line_is_yielded(raw, after);
    assert(data_lines(before) + (seq![trim(raw)] + data_lines(after)) =~= data_lines(before)
        + seq![trim(raw)] + data_lines(after));
}

} // verus!
