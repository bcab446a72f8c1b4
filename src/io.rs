//! A single-pass reader over the lines of a text.
use vstd::prelude::*;

use crate::text::{chars_of, string_of};

verus! {

/// Index of the line terminator `\n` at or after `p`, or the end of `t`.
pub open spec fn line_end(t: Seq<char>, p: int) -> int
    decreases t.len() - p,
{
    if p < 0 || p >= t.len() || t[p] == '\n' {
        p
    } else {
        line_end(t, p + 1)
    }
}

/// The line that starts at `p`, without its terminator.
pub open spec fn line_at(t: Seq<char>, p: int) -> Seq<char> {
    t.subrange(p, line_end(t, p))
}

/// Where the next line starts once the line at `p` is consumed; at the end of
/// the text nothing is consumed.
pub open spec fn after_line(t: Seq<char>, p: int) -> int {
    if p >= t.len() {
        p
    } else if line_end(t, p) < t.len() {
        line_end(t, p) + 1
    } else {
        t.len() as int
    }
}

/// The line at `p`, or `None` when the text is exhausted.
pub open spec fn line_from(t: Seq<char>, p: int) -> Option<Seq<char>> {
    if p >= t.len() {
        None
    } else {
        Some(line_at(t, p))
    }
}

/// The line terminator of the line at `p` lies within the text.
pub proof fn lemma_line_end_bounds(t: Seq<char>, p: int)
    requires
        0 <= p <= t.len(),
    ensures
        p <= line_end(t, p) <= t.len(),
        p <= after_line(t, p) <= t.len(),
        p < t.len() ==> p < after_line(t, p),
    decreases t.len() - p,
{
    if p < t.len() && t[p] != '\n' {
        lemma_line_end_bounds(t, p + 1);
    }
}

/// Reads a text one line at a time, front to back.
pub struct LineReader {
    text: Vec<char>,
    pos: usize,
}

impl LineReader {
    /// The position lies within the text.
    pub closed spec fn wf(&self) -> bool {
        self.pos <= self.text.len()
    }

    /// The whole text being read.
    pub closed spec fn text(&self) -> Seq<char> {
        self.text@
    }

    /// Where the next line starts.
    pub closed spec fn pos(&self) -> int {
        self.pos as int
    }

    /// A reader positioned at the start of `text`.
    pub fn new(text: &str) -> (r: LineReader)
        ensures
            r.wf(),
            r.text() == text@,
            r.pos() == 0,
            0 <= r.pos() <= r.text().len(),
    {
        LineReader { text: chars_of(text), pos: 0 }
    }

    /// A well-formed reader stands within its text.
    pub proof fn lemma_pos_bounds(&self)
        requires
            self.wf(),
        ensures
            0 <= self.pos() <= self.text().len(),
    {
    }

    /// Whether every line has been read.
    pub fn at_end(&self) -> (r: bool)
        requires
            self.wf(),
        ensures
            r == (self.pos() >= self.text().len()),
    {
        self.pos >= self.text.len()
    }

    /// The next line as characters, without its terminator; `None` at the end.
    pub fn next_chars(&mut self) -> (r: Option<Vec<char>>)
        requires
            old(self).wf(),
        ensures
            final(self).wf(),
            0 <= final(self).pos() <= final(self).text().len(),
            final(self).text() == old(self).text(),
            final(self).pos() == after_line(old(self).text(), old(self).pos()),
            r matches Some(l) ==> line_from(old(self).text(), old(self).pos()) == Some(l@),
            r is None ==> line_from(old(self).text(), old(self).pos()) is None,
    {
        proof {
            lemma_line_end_bounds(self.text@, self.pos as int);
        }
        if self.pos >= self.text.len() {
            return None;
        }
        let start = self.pos;
        let mut line: Vec<char> = Vec::new();
        let mut i: usize = start;
        while i < self.text.len() && self.text[i] != '\n'
            invariant
                start <= i <= self.text.len(),
                line_end(self.text@, i as int) == line_end(self.text@, start as int),
                line@ == self.text@.subrange(start as int, i as int),
            decreases self.text.len() - i,
        {
            line.push(self.text[i]);
            i = i + 1;
            assert(line@ =~= self.text@.subrange(start as int, i as int));
        }
        if i < self.text.len() {
            self.pos = i + 1;
        } else {
            self.pos = i;
        }
        Some(line)
    }

    /// The next line as a string, without its terminator; `None` at the end.
    pub fn next_line(&mut self) -> (r: Option<String>)
        requires
            old(self).wf(),
        ensures
            final(self).wf(),
            0 <= final(self).pos() <= final(self).text().len(),
            final(self).text() == old(self).text(),
            final(self).pos() == after_line(old(self).text(), old(self).pos()),
            r matches Some(l) ==> line_from(old(self).text(), old(self).pos()) == Some(l@),
            r is None ==> line_from(old(self).text(), old(self).pos()) is None,
    {
        match self.next_chars() {
            None => None,
            Some(l) => Some(string_of(&l, 0, l.len())),
        }
    }
}

/// Consumes one line, which carries no data, and leaves the text consumed,
/// its terminator included, in `buf`; at the end of the text nothing is
/// consumed and `buf` is left empty.
pub fn skip_line(reader: &mut LineReader, buf: &mut String)
    requires
        old(reader).wf(),
    ensures
        final(reader).wf(),
        0 <= final(reader).pos() <= final(reader).text().len(),
        final(reader).text() == old(reader).text(),
        final(reader).pos() == after_line(old(reader).text(), old(reader).pos()),
        final(buf)@ == old(reader).text().subrange(old(reader).pos(), final(reader).pos()),
{
    let start = reader.pos;
    proof {
        lemma_line_end_bounds(reader.text@, start as int);
    }
    let _ = reader.next_chars();
    *buf = string_of(&reader.text, start, reader.pos);
}

} // verus!
