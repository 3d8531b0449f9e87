//! The line wrapper: the scan as it runs, and the filter built on it.

use vstd::prelude::*;
use vstd::string::StrSliceExecFns;
use crate::layout::{
    continuation_prefix, group_close, group_close_text, group_open, group_open_text, line_break,
    line_break_text, CONTINUATION_INDENT,
};
use crate::scan::{reflow, start, wrapped, Cursor, Frame};
use crate::text::{count_leading_spaces, push_chars, word_char};

verus! {

/// A scan in progress: the frame of the line, the cursor, and the output
/// written so far.
pub struct Scanner {
    width: u8,
    quote: char,
    indent: usize,
    cut: Vec<char>,
    opening: Vec<char>,
    closing: Vec<char>,
    col: usize,
    opened: bool,
    word: Vec<char>,
    out: String,
}

impl Scanner {
    /// The frame of the line that is scanned.
    pub closed spec fn frame(&self) -> Frame {
        Frame { width: self.width as nat, quote: self.quote, indent: self.indent as nat }
    }

    /// Where the scan stands.
    pub closed spec fn cursor(&self) -> Cursor {
        Cursor { col: self.col as nat, opened: self.opened, word: self.word@ }
    }

    /// The output written so far.
    pub closed spec fn written(&self) -> Seq<char> {
        self.out@
    }

    /// The inserted texts are those of the frame, and the column is one that
    /// a scan in this frame can reach.
    pub closed spec fn wf(&self) -> bool {
        &&& self.cut@ == line_break(self.indent as nat, self.quote)
        &&& self.opening@ == group_open(self.indent as nat, self.quote)
        &&& self.closing@ == group_close(self.indent as nat, self.quote)
        &&& (self.col < self.width || self.col <= self.indent + 5)
    }

    /// A scan before the first character of a line that begins with `indent`
    /// spaces.
    pub fn new(width: u8, quote: char, indent: usize) -> (sc: Scanner)
        ensures
            sc.wf(),
            sc.frame() == (Frame { width: width as nat, quote, indent: indent as nat }),
            sc.cursor() == start(),
            sc.written() == Seq::<char>::empty(),
    {
        Scanner {
            width,
            quote,
            indent,
            cut: line_break_text(indent, quote),
            opening: group_open_text(indent, quote),
            closing: group_close_text(indent, quote),
            col: 0,
            opened: false,
            word: Vec::new(),
            out: String::new(),
        }
    }

    /// Writes the held word and holds nothing afterwards.
    fn release(&mut self)
        requires
            old(self).wf(),
        ensures
            final(self).wf(),
            final(self).frame() == old(self).frame(),
            final(self).written() == old(self).written() + old(self).cursor().word,
            final(self).cursor() == (Cursor { word: Seq::empty(), ..old(self).cursor() }),
    {
        push_chars(&mut self.out, &self.word);
        self.word.clear();
    }

    /// Reads the next character of the line.
    pub fn read(&mut self, c: char)
        requires
            old(self).wf(),
        ensures
            final(self).wf(),
            final(self).frame() == old(self).frame(),
            final(self).cursor() == old(self).frame().step(old(self).cursor(), c),
            final(self).written() == old(self).written() + old(self).frame().emitted(
                old(self).cursor(),
                c,
            ),
    {
        assert(self.cut.len() == self.indent + 7);
        let prefix_len = self.indent + CONTINUATION_INDENT;
        assert(prefix_len == continuation_prefix(self.indent as nat).len());
        self.col = self.col + 1;
        if self.col >= self.width as usize {
            push_chars(&mut self.out, &self.cut);
            self.col = prefix_len + 1;
        }
        if c == self.quote {
            if !self.opened {
                push_chars(&mut self.out, &self.opening);
                self.opened = true;
                self.col = prefix_len;
            } else {
                self.release();
                push_chars(&mut self.out, &self.closing);
            }
        } else {
            self.word.push(c);
        }
        if !word_char(c) {
            self.release();
        }
    }

    /// The output written so far.
    pub fn output(&self) -> (text: &str)
        ensures
            text@ == self.written(),
    {
        self.out.as_str()
    }

    /// Ends the scan: the output, closed by a newline. A held word is dropped.
    pub fn finish(self) -> (out: String)
        ensures
            out@ == self.written().push('\n'),
    {
        let mut out = self.out;
        out.push('\n');
        out
    }
}

/// Wraps `line`, whatever its length: the literal that `quote` delimits is
/// put in parentheses on continuation lines of its own and cut wherever a
/// line reaches `width` columns.
///
/// A line is taken to hold one literal. The first quote opens the group and
/// every later one closes it, so a line with more than two quotes gets more
/// closing parentheses than opening ones. A quote is not taken to be escaped
/// by anything before it.
pub fn wrap_long_line(line: &str, width: u8, quote: char) -> (out: String)
    ensures
        out@ == wrapped(line@, width as nat, quote),
{
    broadcast use vstd::string::group_string_axioms;

    let indent = count_leading_spaces(line);
    let ghost frame = Frame::of(line@, width as nat, quote);
    let mut sc = Scanner::new(width, quote, indent);
    assert(line@.skip(0) == line@);
    for c in it: line.chars()
        invariant
            it.seq() == line@,
            sc.wf(),
            sc.frame() == frame,
            sc.written() + frame.render(sc.cursor(), line@.skip(it.index() as int))
                == frame.render(start(), line@),
    {
        assert(line@.skip(it.index() as int).drop_first() == line@.skip(it.index() + 1));
        sc.read(c);
    }
    sc.finish()
}

/// Reflows `line`: a line of fewer than `width` characters is returned as it
/// is, with no newline added; any other is wrapped, a line of exactly `width`
/// characters too. The length is counted in characters, not in bytes.
pub fn wrap_line(line: &str, width: u8, quote: char) -> (out: String)
    ensures
        out@ == reflow(line@, width as nat, quote),
        line@.len() < width ==> out@ == line@,
        line@.len() >= width ==> out@ == wrapped(line@, width as nat, quote),
{
    if line.unicode_len() < width as usize {
        line.to_owned()
    } else {
        wrap_long_line(line, width, quote)
    }
}

} // verus!
