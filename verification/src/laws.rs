//! What holds of every line that is reflowed.
//!
//! The laws of a line that is shorter than the width, or just as long, stand
//! here. Those of the wrapped form stand in the modules: [`words`] on the
//! words that are kept whole, [`indentation`] on the lines that wrapping
//! begins, and [`groups`] on the parentheses that it adds.

use vstd::prelude::*;
use crate::scan::{lemma_scan_first, lemma_scan_split, reflow, start, wrapped, Cursor, Frame};
use crate::text::is_word_char;

pub mod groups;
pub mod indentation;
pub mod words;

verus! {

/// A line shorter than the width comes back as it is, with nothing added.
pub proof fn lemma_short_line_unchanged(line: Seq<char>, width: nat, quote: char)
    requires
        line.len() < width,
    ensures
        reflow(line, width, quote) == line,
{
}

/// Only a word at the end is lost: what a scan writes and what it still
/// holds are together no shorter than what it held and what it read.
proof fn lemma_scan_length(frame: Frame, cur: Cursor, text: Seq<char>)
    ensures
        frame.render(cur, text).len() + frame.walk(cur, text).word.len() >= cur.word.len()
            + text.len(),
    decreases text.len(),
{
    if text.len() > 0 {
        lemma_scan_length(frame, frame.step(cur, text[0]), text.drop_first());
    }
}

/// After a character that is neither a letter nor a digit, a scan holds
/// nothing.
proof fn lemma_nothing_held(frame: Frame, cur: Cursor, text: Seq<char>)
    requires
        text.len() > 0,
        !is_word_char(text.last()),
    ensures
        frame.walk(cur, text).word.len() == 0,
{
    let before = text.drop_last();
    let last = seq![text.last()];
    assert(text == before + last);
    lemma_scan_split(frame, cur, before, last);
    assert(last + Seq::<char>::empty() == last);
    lemma_scan_first(frame, frame.walk(cur, before), text.last(), Seq::empty());
}

/// The wrapped form of a line is never the line itself: it ends in a
/// newline, and where the line does so too it is longer than the line.
pub proof fn lemma_wrapped_differs(line: Seq<char>, width: nat, quote: char)
    ensures
        wrapped(line, width, quote).len() > 0,
        wrapped(line, width, quote).last() == '\n',
        wrapped(line, width, quote) != line,
{
    let frame = Frame::of(line, width, quote);
    if line.len() > 0 && line.last() == '\n' {
        lemma_scan_length(frame, start(), line);
        lemma_nothing_held(frame, start(), line);
    }
}

/// A line that is exactly as long as the width is wrapped: what comes back
/// is the wrapped form and not the line.
pub proof fn lemma_full_line_is_wrapped(line: Seq<char>, width: nat, quote: char)
    requires
        line.len() == width,
    ensures
        reflow(line, width, quote) == wrapped(line, width, quote),
        reflow(line, width, quote) != line,
{
    lemma_wrapped_differs(line, width, quote);
}

/// Reflowing what a line shorter than the width was reflowed to changes
/// nothing.
pub proof fn lemma_reflow_twice(line: Seq<char>, width: nat, quote: char)
    requires
        line.len() < width,
    ensures
        reflow(reflow(line, width, quote), width, quote) == reflow(line, width, quote),
{
}

} // verus!
