//! The lines that wrapping begins are indented as the line is.

use vstd::prelude::*;
use crate::layout::{continuation_prefix, group_close, group_open, line_break};
use crate::occurrence::{
    begins_at, free_of, lemma_begins_at_left, lemma_begins_at_right, lemma_free_of_part,
};
use crate::scan::{start, wrapped, Cursor, Frame};
use crate::text::{is_word_char, leading_spaces, spaces};

verus! {

/// Whether `text` holds no newline.
pub open spec fn one_line(text: Seq<char>) -> bool {
    free_of(text, '\n')
}

/// Whether every newline of `text` is followed by the beginning of a
/// continuation line, which is four spaces more than `indent` spaces and the
/// quote, or by that of the closing line, which is `indent` spaces and the
/// closing parenthesis.
pub open spec fn indented(text: Seq<char>, indent: nat, quote: char) -> bool {
    forall|p: int|
        0 <= p < text.len() && #[trigger] text[p] == '\n' ==> begins_at(
            text,
            p + 1,
            continuation_prefix(indent).push(quote),
        ) || begins_at(text, p + 1, spaces(indent).push(')'))
}

/// Two indented texts in a row are indented.
proof fn lemma_indented_concat(a: Seq<char>, b: Seq<char>, indent: nat, quote: char)
    requires
        indented(a, indent, quote),
        indented(b, indent, quote),
    ensures
        indented(a + b, indent, quote),
{
    let cont = continuation_prefix(indent).push(quote);
    let clos = spaces(indent).push(')');
    assert forall|p: int| 0 <= p < (a + b).len() && #[trigger] (a + b)[p] == '\n' implies begins_at(
        a + b,
        p + 1,
        cont,
    ) || begins_at(a + b, p + 1, clos) by {
        if p < a.len() {
            assert(a[p] == '\n');
            if begins_at(a, p + 1, cont) {
                lemma_begins_at_left(a, b, p + 1, cont);
            } else {
                lemma_begins_at_left(a, b, p + 1, clos);
            }
        } else {
            let r = p - a.len();
            assert(b[r] == '\n');
            if begins_at(b, r + 1, cont) {
                lemma_begins_at_right(a, b, r + 1, cont);
            } else {
                lemma_begins_at_right(a, b, r + 1, clos);
            }
        }
    }
}

/// The texts that wrapping inserts are indented: each holds one newline,
/// which the beginning of a continuation line or of the closing line follows.
proof fn lemma_inserts_indented(indent: nat, quote: char)
    requires
        quote != '\n',
    ensures
        indented(line_break(indent, quote), indent, quote),
        indented(group_open(indent, quote), indent, quote),
        indented(group_close(indent, quote), indent, quote),
{
    let cont = continuation_prefix(indent).push(quote);
    let clos = spaces(indent).push(')');
    let cut = line_break(indent, quote);
    let opening = group_open(indent, quote);
    let closing = group_close(indent, quote);
    assert(cut.subrange(2, 2int + cont.len()) =~= cont);
    assert(opening.subrange(2, 2int + cont.len()) =~= cont);
    assert(closing.subrange(2, 2int + clos.len()) =~= clos);
    assert(begins_at(cut, 2, cont));
    assert(begins_at(opening, 2, cont));
    assert(begins_at(closing, 2, clos));
}

/// What a scan writes of a text without a newline is indented.
proof fn lemma_render_indented(frame: Frame, cur: Cursor, text: Seq<char>)
    requires
        frame.quote != '\n',
        one_line(cur.word),
        one_line(text),
    ensures
        indented(frame.render(cur, text), frame.indent, frame.quote),
    decreases text.len(),
{
    if text.len() > 0 {
        let c = text[0];
        let next = frame.step(cur, c);
        let rest = text.drop_first();
        let released = frame.released(cur, c);
        assert(rest == text.subrange(1, text.len() as int));
        lemma_free_of_part(text, '\n', 1, text.len() as int);
        assert(one_line(next.word));
        lemma_render_indented(frame, next, rest);
        lemma_inserts_indented(frame.indent, frame.quote);
        assert(indented(released, frame.indent, frame.quote)) by {
            if c == frame.quote {
                if !cur.opened {
                    let tail = if is_word_char(c) {
                        Seq::empty()
                    } else {
                        cur.word
                    };
                    lemma_indented_concat(
                        group_open(frame.indent, frame.quote),
                        tail,
                        frame.indent,
                        frame.quote,
                    );
                } else {
                    lemma_indented_concat(
                        cur.word,
                        group_close(frame.indent, frame.quote),
                        frame.indent,
                        frame.quote,
                    );
                }
            }
        }
        lemma_indented_concat(frame.cut(cur), released, frame.indent, frame.quote);
        lemma_indented_concat(
            frame.emitted(cur, c),
            frame.render(next, rest),
            frame.indent,
            frame.quote,
        );
    }
}

/// The continuation lines and the closing line are indented by the line's
/// own indentation: in the wrapped form of a line without a newline, every
/// newline but the last is followed either by four spaces more than the line
/// begins with and the quote, or by as many spaces as the line begins with
/// and the closing parenthesis.
pub proof fn lemma_indentation_preserved(line: Seq<char>, width: nat, quote: char)
    requires
        one_line(line),
        quote != '\n',
    ensures
        ({
            let out = wrapped(line, width, quote);
            let indent = leading_spaces(line);
            forall|p: int|
                0 <= p < out.len() - 1 && #[trigger] out[p] == '\n' ==> begins_at(
                    out,
                    p + 1,
                    continuation_prefix(indent).push(quote),
                ) || begins_at(out, p + 1, spaces(indent).push(')'))
        }),
{
    let frame = Frame::of(line, width, quote);
    let body = frame.render(start(), line);
    let out = wrapped(line, width, quote);
    let indent = leading_spaces(line);
    let cont = continuation_prefix(indent).push(quote);
    let clos = spaces(indent).push(')');
    lemma_render_indented(frame, start(), line);
    assert(out == body + seq!['\n']);
    assert forall|p: int| 0 <= p < out.len() - 1 && #[trigger] out[p] == '\n' implies begins_at(
        out,
        p + 1,
        cont,
    ) || begins_at(out, p + 1, clos) by {
        assert(body[p] == '\n');
        if begins_at(body, p + 1, cont) {
            lemma_begins_at_left(body, seq!['\n'], p + 1, cont);
        } else {
            lemma_begins_at_left(body, seq!['\n'], p + 1, clos);
        }
    }
}

} // verus!
