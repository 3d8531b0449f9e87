//! No word is broken.

use vstd::prelude::*;
use crate::layout::{group_close, group_open};
use crate::occurrence::{
    begins_at, lemma_occurs_in_itself, lemma_occurs_left, lemma_occurs_right, occurs_in,
};
use crate::scan::{lemma_scan_split, start, wrapped, Cursor, Frame};
use crate::text::is_word_char;

verus! {

/// Whether `text` begins with `n` letters and digits, none of them `quote`,
/// and goes on with a character that is neither a letter nor a digit.
spec fn word_ahead(text: Seq<char>, n: int, quote: char) -> bool {
    &&& 0 <= n < text.len()
    &&& forall|k: int| 0 <= k < n ==> is_word_char(#[trigger] text[k]) && text[k] != quote
    &&& !is_word_char(text[n])
}

/// A held word is written in one piece together with the letters and digits
/// that follow it, once a character that is neither comes.
proof fn lemma_held_word_is_written(frame: Frame, cur: Cursor, text: Seq<char>, n: int)
    requires
        word_ahead(text, n, frame.quote),
    ensures
        occurs_in(frame.render(cur, text), cur.word + text.take(n)),
    decreases n,
{
    let c = text[0];
    let next = frame.step(cur, c);
    let rest = text.drop_first();
    let first = frame.emitted(cur, c);
    let more = frame.render(next, rest);
    if n == 0 {
        let w = cur.word;
        let released = frame.released(cur, c);
        assert(cur.word + text.take(0) == w);
        lemma_occurs_in_itself(w);
        assert(occurs_in(released, w)) by {
            if c == frame.quote {
                if !cur.opened {
                    lemma_occurs_right(group_open(frame.indent, frame.quote), w, w);
                } else {
                    lemma_occurs_left(w, group_close(frame.indent, frame.quote), w);
                }
            } else {
                assert(w.push(c) == w + seq![c]);
                lemma_occurs_left(w, seq![c], w);
            }
        }
        lemma_occurs_right(frame.cut(cur), released, w);
        lemma_occurs_left(first, more, w);
    } else {
        assert(word_ahead(rest, n - 1, frame.quote)) by {
            assert forall|k: int| 0 <= k < n - 1 implies is_word_char(#[trigger] rest[k]) && rest[k]
                != frame.quote by {
                assert(rest[k] == text[k + 1]);
            }
            assert(rest[n - 1] == text[n]);
        }
        lemma_held_word_is_written(frame, next, rest, n - 1);
        assert(next.word + rest.take(n - 1) =~= cur.word + text.take(n));
        lemma_occurs_right(first, more, cur.word + text.take(n));
    }
}

/// No word is broken: every run of letters and digits of the line that does
/// not hold the quote, and that a character which is neither a letter nor a
/// digit follows, stands unbroken in the wrapped form.
pub proof fn lemma_word_integrity(line: Seq<char>, width: nat, quote: char, from: int, to: int)
    requires
        0 <= from <= to < line.len(),
        forall|k: int| from <= k < to ==> is_word_char(#[trigger] line[k]) && line[k] != quote,
        !is_word_char(line[to]),
    ensures
        occurs_in(wrapped(line, width, quote), line.subrange(from, to)),
{
    let frame = Frame::of(line, width, quote);
    let before = line.take(from);
    let after = line.skip(from);
    let cur = frame.walk(start(), before);
    let run = line.subrange(from, to);
    let written = frame.render(cur, after);
    assert(line == before + after);
    lemma_scan_split(frame, start(), before, after);
    assert(word_ahead(after, to - from, quote)) by {
        assert forall|k: int| 0 <= k < to - from implies is_word_char(#[trigger] after[k])
            && after[k] != quote by {
            assert(after[k] == line[from + k]);
        }
        assert(after[to - from] == line[to]);
    }
    lemma_held_word_is_written(frame, cur, after, to - from);
    assert(after.take(to - from) =~= run);
    let piece = cur.word + run;
    let at = choose|at: int| begins_at(written, at, piece);
    assert(begins_at(written, at + cur.word.len(), run)) by {
        assert(written.subrange(at + cur.word.len(), at + cur.word.len() + run.len())
            =~= piece.subrange(cur.word.len() as int, piece.len() as int));
        assert(piece.subrange(cur.word.len() as int, piece.len() as int) =~= run);
    }
    lemma_occurs_right(frame.render(start(), before), written, run);
    lemma_occurs_left(frame.render(start(), line), seq!['\n'], run);
    assert(wrapped(line, width, quote) == frame.render(start(), line) + seq!['\n']);
}

} // verus!
