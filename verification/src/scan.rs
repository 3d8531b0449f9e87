//! The scan of a line, character by character, as a mathematical model.
//!
//! A scan reads the line from left to right. What it has decided so far is a
//! [`Cursor`]; what stays the same for the whole line is a [`Frame`]. Each
//! character adds some text to the output and moves the cursor on.

use vstd::prelude::*;
use crate::layout::{continuation_prefix, group_close, group_open, line_break};
use crate::text::{is_word_char, leading_spaces};

verus! {

/// What is fixed while one line is scanned.
pub struct Frame {
    /// The column at which a literal is cut.
    pub width: nat,
    /// The character that opens and closes the literal.
    pub quote: char,
    /// The number of spaces that the line begins with.
    pub indent: nat,
}

/// What a scan carries from one character to the next.
pub struct Cursor {
    /// The number of characters on the output line that is being written.
    pub col: nat,
    /// Whether the quote that opens the literal has been read.
    pub opened: bool,
    /// The letters and digits read since the last character that was neither:
    /// they are held back until the word they belong to is complete.
    pub word: Seq<char>,
}

/// The cursor before the first character of a line.
pub open spec fn start() -> Cursor {
    Cursor { col: 0, opened: false, word: Seq::empty() }
}

impl Frame {
    /// The frame in which `line` is scanned.
    pub open spec fn of(line: Seq<char>, width: nat, quote: char) -> Frame {
        Frame { width, quote, indent: leading_spaces(line) }
    }

    /// Whether the literal is cut before the next character is handled: the
    /// column that this character would stand in has reached the width.
    pub open spec fn cuts(self, cur: Cursor) -> bool {
        cur.col + 1 >= self.width
    }

    /// The column after the next character has been counted, and the literal
    /// cut where that is due. After a cut the quote that opens the
    /// continuation line counts as its first character after the prefix.
    pub open spec fn counted(self, cur: Cursor) -> nat {
        if self.cuts(cur) {
            continuation_prefix(self.indent).len() + 1
        } else {
            cur.col + 1
        }
    }

    /// The text of the cut before the next character, where one is due.
    pub open spec fn cut(self, cur: Cursor) -> Seq<char> {
        if self.cuts(cur) {
            line_break(self.indent, self.quote)
        } else {
            Seq::empty()
        }
    }

    /// The text that `c` itself adds to the output. The first quote becomes
    /// the opening of the group and a later quote its closing, which the held
    /// word precedes; any other character joins the held word. A character
    /// that is neither a letter nor a digit releases the held word.
    pub open spec fn released(self, cur: Cursor, c: char) -> Seq<char> {
        if c == self.quote {
            if !cur.opened {
                group_open(self.indent, self.quote) + (if is_word_char(c) {
                    Seq::empty()
                } else {
                    cur.word
                })
            } else {
                cur.word + group_close(self.indent, self.quote)
            }
        } else if is_word_char(c) {
            Seq::empty()
        } else {
            cur.word.push(c)
        }
    }

    /// The text that reading `c` adds to the output: the cut, where one is
    /// due, and then what `c` releases.
    pub open spec fn emitted(self, cur: Cursor, c: char) -> Seq<char> {
        self.cut(cur) + self.released(cur, c)
    }

    /// The cursor after `c` has been read.
    pub open spec fn step(self, cur: Cursor, c: char) -> Cursor {
        if c == self.quote {
            if !cur.opened {
                Cursor {
                    col: continuation_prefix(self.indent).len(),
                    opened: true,
                    word: if is_word_char(c) {
                        cur.word
                    } else {
                        Seq::empty()
                    },
                }
            } else {
                Cursor { col: self.counted(cur), opened: true, word: Seq::empty() }
            }
        } else {
            Cursor {
                col: self.counted(cur),
                opened: cur.opened,
                word: if is_word_char(c) {
                    cur.word.push(c)
                } else {
                    Seq::empty()
                },
            }
        }
    }

    /// The text that reading all of `text` adds to the output, from the
    /// cursor `cur` on. A word that `text` ends in stays held.
    pub open spec fn render(self, cur: Cursor, text: Seq<char>) -> Seq<char>
        decreases text.len(),
    {
        if text.len() == 0 {
            Seq::empty()
        } else {
            self.emitted(cur, text[0]) + self.render(self.step(cur, text[0]), text.drop_first())
        }
    }

    /// The cursor after all of `text` has been read, from the cursor `cur` on.
    pub open spec fn walk(self, cur: Cursor, text: Seq<char>) -> Cursor
        decreases text.len(),
    {
        if text.len() == 0 {
            cur
        } else {
            self.walk(self.step(cur, text[0]), text.drop_first())
        }
    }
}

/// The wrapped form of `line`: what the scan of the whole line writes, and a
/// newline. A word that the line ends in is not written.
pub open spec fn wrapped(line: Seq<char>, width: nat, quote: char) -> Seq<char> {
    Frame::of(line, width, quote).render(start(), line).push('\n')
}

/// What the filter makes of `line`: a line shorter than `width` stays as it
/// is, any other is wrapped.
pub open spec fn reflow(line: Seq<char>, width: nat, quote: char) -> Seq<char> {
    if line.len() < width {
        line
    } else {
        wrapped(line, width, quote)
    }
}

/// Reading `a + b` is reading `a` and then `b`.
pub proof fn lemma_scan_split(frame: Frame, cur: Cursor, a: Seq<char>, b: Seq<char>)
    ensures
        frame.render(cur, a + b) == frame.render(cur, a) + frame.render(frame.walk(cur, a), b),
        frame.walk(cur, a + b) == frame.walk(frame.walk(cur, a), b),
    decreases a.len(),
{
    if a.len() == 0 {
        assert(a + b == b);
    } else {
        assert((a + b).drop_first() == a.drop_first() + b);
        lemma_scan_split(frame, frame.step(cur, a[0]), a.drop_first(), b);
    }
}

/// Reading `c` and then `rest`.
pub proof fn lemma_scan_first(frame: Frame, cur: Cursor, c: char, rest: Seq<char>)
    ensures
        frame.render(cur, seq![c] + rest) == frame.emitted(cur, c) + frame.render(
            frame.step(cur, c),
            rest,
        ),
        frame.walk(cur, seq![c] + rest) == frame.walk(frame.step(cur, c), rest),
{
    let text = seq![c] + rest;
    assert(text[0] == c && text.drop_first() == rest);
}

} // verus!
