//! The line reader: a text, a cursor into it, and the operation that yields
//! the next data line.

use vstd::prelude::*;
use crate::lines::{advance, data_lines, lemma_raw_line_is_first, raw_line_len};
use crate::text::{chars_of, string_of, trim_span};

verus! {

/// What reading returns in place of a line when none is left.
#[derive(Debug, Clone, Copy, PartialEq, Eq)]
pub struct EndOfInput;

/// A reader over one text. It owns the text and a cursor that only moves
/// forward.
pub struct LineIO {
    buf: Vec<char>,
    pos: usize,
}

impl LineIO {
    #[verifier::type_invariant]
    spec fn cursor_in_text(self) -> bool {
        self.pos <= self.buf.len()
    }

    /// The whole text that the reader was made for.
    pub closed spec fn text(&self) -> Seq<char> {
        self.buf@
    }

    /// The number of characters read so far.
    pub closed spec fn position(&self) -> nat {
        self.pos as nat
    }

    /// The part of the text that has not been read yet.
    pub open spec fn unread(&self) -> Seq<char> {
        self.text().skip(self.position() as int)
    }

    /// A reader at the start of `text`.
    pub fn new(text: &String) -> (r: LineIO)
        ensures
            r.text() == text@,
            r.position() == 0,
            r.unread() == text@,
    {
        let buf = chars_of(text.as_str());
        assert(buf@.skip(0) =~= buf@);
        LineIO { buf, pos: 0 }
    }

    /// The position after the raw line that begins at `start`.
    fn raw_line_end(&self, start: usize) -> (end: usize)
        requires
            start < self.buf.len(),
        ensures
            start < end <= self.buf.len(),
            end - start == raw_line_len(self.buf@.skip(start as int)),
    {
        let ghost s = self.buf@.skip(start as int);
        let mut i: usize = start;
        while i < self.buf.len() && self.buf[i] != '\n'
            invariant
                start <= i <= self.buf.len(),
                s == self.buf@.skip(start as int),
                forall|k: int| 0 <= k < i - start ==> s[k] != '\n',
            decreases self.buf.len() - i,
        {
            i += 1;
        }
        let end: usize = if i < self.buf.len() {
            i + 1
        } else {
            i
        };
        proof {
            lemma_raw_line_is_first(s, end - start);
        }
        end
    }

    /// Reads on to the next data line and returns it, trimmed of surrounding
    /// whitespace; comments and blank lines on the way are passed over. Where
    /// no data line is left it reads to the end and returns `EndOfInput`, and
    /// so does every call after that. Call by call, the lines returned are the
    /// data lines of the text, in order.
    pub fn getline(&mut self) -> (r: Result<String, EndOfInput>)
        ensures
            final(self).text() == old(self).text(),
            old(self).position() <= final(self).position() <= final(self).text().len(),
            final(self).unread() == advance(old(self).unread()).1,
            match r {
                Ok(line) => advance(old(self).unread()).0 == Some(line@),
                Err(_) => advance(old(self).unread()).0 is None,
            },
            data_lines(old(self).unread()) == match r {
                Ok(line) => seq![line@] + data_lines(final(self).unread()),
                Err(_) => Seq::empty(),
            },
            old(self).unread().len() == 0 ==> r is Err,
            r is Err ==> final(self).unread().len() == 0,
    {
        proof {
            use_type_invariant(&*self);
        }
        loop
            invariant
                self.pos <= self.buf.len(),
                self.buf == old(self).buf,
                old(self).pos <= self.pos,
                advance(self.unread()) == advance(old(self).unread()),
            decreases self.buf.len() - self.pos,
        {
            let start: usize = self.pos;
            let ghost s = self.unread();
            if start >= self.buf.len() {
                return Err(EndOfInput);
            }
            let end: usize = self.raw_line_end(start);
            let comment: bool = self.buf[start] == '#';
            let blank: bool = end - start == 1 && self.buf[start] == '\n';
            proof {
                let n = raw_line_len(s) as int;
                assert(n == end - start);
                assert(s.take(n) =~= self.buf@.subrange(start as int, end as int));
                assert(s.skip(n) =~= self.buf@.skip(end as int));
                assert(s.take(n)[0] == self.buf@[start as int]);
            }
            self.pos = end;
            if !comment && !blank {
                let span = trim_span(&self.buf, start, end);
                return Ok(string_of(&self.buf, span.0, span.1));
            }
        }
    }
}

} // verus!
