//! The parentheses that wrapping adds, and the group of a line with two
//! quotes.

use vstd::prelude::*;
use crate::layout::{continuation_prefix, group_close, group_open};
use crate::occurrence::{
    count_of, free_of, lemma_count_absent, lemma_count_concat, lemma_count_one,
    lemma_count_spaces, lemma_free_of_part,
};
use crate::scan::{lemma_scan_first, lemma_scan_split, start, wrapped, Cursor, Frame};
use crate::text::{is_word_char, leading_spaces, spaces};

verus! {

/// How many groups a scan opens when it reads `quotes` quotes: one with the
/// first quote, unless a group is open already.
pub open spec fn groups_opened(opened: bool, quotes: nat) -> nat {
    if !opened && quotes > 0 {
        1
    } else {
        0
    }
}

/// How many times a scan closes a group when it reads `quotes` quotes: with
/// every quote but the one that opens the group.
pub open spec fn groups_closed(opened: bool, quotes: nat) -> nat {
    if opened {
        quotes
    } else if quotes > 0 {
        (quotes - 1) as nat
    } else {
        0
    }
}

/// Whether `p` is a parenthesis, where the quote is none.
spec fn paren(p: char, quote: char) -> bool {
    (p == '(' || p == ')') && quote != '(' && quote != ')'
}

/// How many `p` a scan adds to those of the text when it reads `quotes`
/// quotes.
spec fn added(p: char, opened: bool, quotes: nat) -> nat {
    if p == '(' {
        groups_opened(opened, quotes)
    } else {
        groups_closed(opened, quotes)
    }
}

/// A cut holds no parenthesis.
proof fn lemma_cut_count(frame: Frame, cur: Cursor, p: char)
    requires
        paren(p, frame.quote),
    ensures
        count_of(frame.cut(cur), p) == 0,
{
    let quote = frame.quote;
    let head = seq![quote, '\n'];
    let pad = continuation_prefix(frame.indent);
    assert(head == seq![quote] + seq!['\n']);
    lemma_count_one(quote, p);
    lemma_count_one('\n', p);
    lemma_count_concat(seq![quote], seq!['\n'], p);
    lemma_count_spaces(frame.indent + 4, p);
    lemma_count_concat(head, pad, p);
    lemma_count_concat(head + pad, seq![quote], p);
}

/// The opening of a group holds one `(`, its closing one `)`.
proof fn lemma_group_count(indent: nat, quote: char, p: char)
    requires
        paren(p, quote),
    ensures
        count_of(group_open(indent, quote), p) == if p == '(' {
            1nat
        } else {
            0nat
        },
        count_of(group_close(indent, quote), p) == if p == ')' {
            1nat
        } else {
            0nat
        },
{
    let pad = continuation_prefix(indent);
    lemma_count_one(quote, p);
    lemma_count_one('\n', p);
    lemma_count_one('(', p);
    lemma_count_one(')', p);
    lemma_count_spaces(indent + 4, p);
    lemma_count_spaces(indent, p);
    assert(seq!['(', '\n'] == seq!['('] + seq!['\n']);
    lemma_count_concat(seq!['('], seq!['\n'], p);
    lemma_count_concat(seq!['(', '\n'], pad, p);
    lemma_count_concat(seq!['(', '\n'] + pad, seq![quote], p);
    assert(seq![quote, '\n'] == seq![quote] + seq!['\n']);
    lemma_count_concat(seq![quote], seq!['\n'], p);
    lemma_count_concat(seq![quote, '\n'], spaces(indent), p);
    lemma_count_concat(seq![quote, '\n'] + spaces(indent), seq![')'], p);
}

/// The parentheses that reading one character writes: the character itself
/// where it is one, `(` for the quote that opens the group, and `)` for a
/// quote that closes it. None is held afterwards.
proof fn lemma_emitted_count(frame: Frame, cur: Cursor, c: char, p: char)
    requires
        paren(p, frame.quote),
        count_of(cur.word, p) == 0,
    ensures
        count_of(frame.emitted(cur, c), p) == if c != frame.quote {
            if c == p {
                1nat
            } else {
                0nat
            }
        } else if !cur.opened {
            if p == '(' {
                1nat
            } else {
                0nat
            }
        } else {
            if p == ')' {
                1nat
            } else {
                0nat
            }
        },
        count_of(frame.step(cur, c).word, p) == 0,
{
    let opening = group_open(frame.indent, frame.quote);
    let closing = group_close(frame.indent, frame.quote);
    lemma_cut_count(frame, cur, p);
    lemma_group_count(frame.indent, frame.quote, p);
    lemma_count_one(c, p);
    assert(count_of(Seq::<char>::empty(), p) == 0);
    assert(cur.word.push(c) == cur.word + seq![c]);
    lemma_count_concat(cur.word, seq![c], p);
    lemma_count_concat(opening, cur.word, p);
    lemma_count_concat(opening, Seq::empty(), p);
    lemma_count_concat(cur.word, closing, p);
    lemma_count_concat(frame.cut(cur), frame.released(cur, c), p);
}

/// The parentheses that a scan writes are those that it reads, one `(` for
/// the group that it opens and one `)` for each time that it closes one.
/// None is held afterwards.
proof fn lemma_render_parens(frame: Frame, cur: Cursor, text: Seq<char>, p: char)
    requires
        paren(p, frame.quote),
        count_of(cur.word, p) == 0,
    ensures
        count_of(frame.render(cur, text), p) == count_of(text, p) + added(
            p,
            cur.opened,
            count_of(text, frame.quote),
        ),
        count_of(frame.walk(cur, text).word, p) == 0,
    decreases text.len(),
{
    if text.len() > 0 {
        let c = text[0];
        let next = frame.step(cur, c);
        let rest = text.drop_first();
        lemma_emitted_count(frame, cur, c, p);
        lemma_render_parens(frame, next, rest, p);
        lemma_count_concat(frame.emitted(cur, c), frame.render(next, rest), p);
    }
}

/// Wrapping adds one `(` to a line that holds a quote, and one `)` for each
/// quote after the first: where the quote is no parenthesis, the wrapped form
/// has that many more than the line. A line with two quotes gets one of
/// each; every further quote closes the group once more.
pub proof fn lemma_parentheses_added(line: Seq<char>, width: nat, quote: char)
    requires
        quote != '(',
        quote != ')',
    ensures
        count_of(wrapped(line, width, quote), '(') == count_of(line, '(') + groups_opened(
            false,
            count_of(line, quote),
        ),
        count_of(wrapped(line, width, quote), ')') == count_of(line, ')') + groups_closed(
            false,
            count_of(line, quote),
        ),
{
    let frame = Frame::of(line, width, quote);
    let body = frame.render(start(), line);
    assert(count_of(start().word, '(') == 0 && count_of(start().word, ')') == 0);
    lemma_render_parens(frame, start(), line, '(');
    lemma_render_parens(frame, start(), line, ')');
    assert(wrapped(line, width, quote) == body + seq!['\n']);
    lemma_count_one('\n', '(');
    lemma_count_one('\n', ')');
    lemma_count_concat(body, seq!['\n'], '(');
    lemma_count_concat(body, seq!['\n'], ')');
}

/// Whether `line` holds the quote at `first` and at `second`, and nowhere
/// else.
pub open spec fn quoted_at(line: Seq<char>, quote: char, first: int, second: int) -> bool {
    &&& 0 <= first < second < line.len()
    &&& forall|k: int|
        0 <= k < line.len() ==> (#[trigger] line[k] == quote <==> (k == first || k == second))
}

/// The wrapped form of a line with two quotes, in the parts that lie round
/// the opening and the closing of its group.
pub struct Grouped {
    /// What is written before the group opens.
    pub head: Seq<char>,
    /// What is written in the group, up to the held word.
    pub body: Seq<char>,
    /// The word that is held when the second quote is read.
    pub held: Seq<char>,
    /// What is written after the group has closed.
    pub tail: Seq<char>,
}

impl Grouped {
    /// The parts put together, with the opening and the closing of the group
    /// of a line that begins with `indent` spaces.
    pub open spec fn joined(self, indent: nat, quote: char) -> Seq<char> {
        self.head + group_open(indent, quote) + self.body + self.held + group_close(indent, quote)
            + self.tail
    }

    /// Whether the parts have as many `p` as `line` has before `first`,
    /// between `first` and `second`, and after `second`.
    pub open spec fn shares(self, line: Seq<char>, first: int, second: int, p: char) -> bool {
        &&& count_of(self.head, p) == count_of(line.take(first), p)
        &&& count_of(self.body + self.held, p) == count_of(line.subrange(first + 1, second), p)
        &&& count_of(self.tail, p) == count_of(line.skip(second + 1), p)
    }
}

/// The cursors of the scan of a line with two quotes, as it reaches and
/// leaves each of them.
struct Stations {
    before_first: Cursor,
    after_first: Cursor,
    before_second: Cursor,
    after_second: Cursor,
}

spec fn stations(frame: Frame, line: Seq<char>, first: int, second: int) -> Stations {
    let before_first = frame.walk(start(), line.take(first));
    let after_first = frame.step(before_first, frame.quote);
    let before_second = frame.walk(after_first, line.subrange(first + 1, second));
    let after_second = frame.step(before_second, frame.quote);
    Stations { before_first, after_first, before_second, after_second }
}

spec fn parts_of(frame: Frame, line: Seq<char>, first: int, second: int) -> Grouped {
    let at = stations(frame, line, first, second);
    Grouped {
        head: frame.render(start(), line.take(first)) + frame.cut(at.before_first),
        body: (if is_word_char(frame.quote) {
            Seq::empty()
        } else {
            at.before_first.word
        }) + frame.render(at.after_first, line.subrange(first + 1, second)) + frame.cut(
            at.before_second,
        ),
        held: at.before_second.word,
        tail: frame.render(at.after_second, line.skip(second + 1)).push('\n'),
    }
}

/// A line with two quotes is free of the quote before, between and after
/// them, and so holds it twice.
pub proof fn lemma_two_quotes(line: Seq<char>, quote: char, first: int, second: int)
    requires
        quoted_at(line, quote, first, second),
    ensures
        free_of(line.take(first), quote),
        free_of(line.subrange(first + 1, second), quote),
        free_of(line.skip(second + 1), quote),
        count_of(line, quote) == 2,
{
    let a = line.take(first);
    let b = line.subrange(first + 1, second);
    let c = line.skip(second + 1);
    let q = seq![quote];
    assert(a == line.subrange(0, first));
    assert(c == line.subrange(second + 1, line.len() as int));
    lemma_free_of_part(line, quote, 0, first);
    lemma_free_of_part(line, quote, first + 1, second);
    lemma_free_of_part(line, quote, second + 1, line.len() as int);
    lemma_count_absent(a, quote);
    lemma_count_absent(b, quote);
    lemma_count_absent(c, quote);
    assert(line =~= a + (q + (b + (q + c))));
    lemma_count_one(quote, quote);
    lemma_count_concat(q, c, quote);
    lemma_count_concat(b, q + c, quote);
    lemma_count_concat(q, b + (q + c), quote);
    lemma_count_concat(a, q + (b + (q + c)), quote);
}

/// Text without a quote leaves the group as it found it.
proof fn lemma_walk_keeps_group(frame: Frame, cur: Cursor, text: Seq<char>)
    requires
        free_of(text, frame.quote),
    ensures
        frame.walk(cur, text).opened == cur.opened,
    decreases text.len(),
{
    if text.len() > 0 {
        assert(text[0] != frame.quote);
        assert(text.drop_first() == text.subrange(1, text.len() as int));
        lemma_free_of_part(text, frame.quote, 1, text.len() as int);
        lemma_walk_keeps_group(frame, frame.step(cur, text[0]), text.drop_first());
    }
}

/// The scan of a line with two quotes, in five parts: before the first
/// quote, the first quote, between the two, the second quote, and after it.
proof fn lemma_scan_in_five(frame: Frame, line: Seq<char>, first: int, second: int)
    requires
        quoted_at(line, frame.quote, first, second),
    ensures
        ({
            let at = stations(frame, line, first, second);
            &&& frame.render(start(), line) == frame.render(start(), line.take(first)) + (
            frame.emitted(at.before_first, frame.quote) + (frame.render(
                at.after_first,
                line.subrange(first + 1, second),
            ) + (frame.emitted(at.before_second, frame.quote) + frame.render(
                at.after_second,
                line.skip(second + 1),
            ))))
            &&& frame.walk(start(), line.take(second)) == at.before_second
        }),
{
    let quote = frame.quote;
    let a = line.take(first);
    let b = line.subrange(first + 1, second);
    let c = line.skip(second + 1);
    let q = seq![quote];
    let at = stations(frame, line, first, second);
    assert(line == a + (q + (b + (q + c)))) by {
        assert(line =~= a + (q + (b + (q + c))));
    }
    assert(line.take(second) == a + (q + b)) by {
        assert(line.take(second) =~= a + (q + b));
    }
    lemma_scan_split(frame, start(), a, q + (b + (q + c)));
    lemma_scan_first(frame, at.before_first, quote, b + (q + c));
    lemma_scan_split(frame, at.after_first, b, q + c);
    lemma_scan_first(frame, at.before_second, quote, c);
    lemma_scan_split(frame, start(), a, q + b);
    lemma_scan_first(frame, at.before_first, quote, b);
}

/// What the two quotes of a line with two quotes add to the output.
proof fn lemma_quotes_emit(frame: Frame, line: Seq<char>, first: int, second: int)
    requires
        quoted_at(line, frame.quote, first, second),
    ensures
        ({
            let at = stations(frame, line, first, second);
            &&& frame.emitted(at.before_first, frame.quote) == frame.cut(at.before_first) + (
            group_open(frame.indent, frame.quote) + (if is_word_char(frame.quote) {
                Seq::empty()
            } else {
                at.before_first.word
            }))
            &&& frame.emitted(at.before_second, frame.quote) == frame.cut(at.before_second) + (
            at.before_second.word + group_close(frame.indent, frame.quote))
        }),
{
    let at = stations(frame, line, first, second);
    lemma_two_quotes(line, frame.quote, first, second);
    lemma_walk_keeps_group(frame, start(), line.take(first));
    lemma_walk_keeps_group(frame, at.after_first, line.subrange(first + 1, second));
}

/// Nine texts in a row, put in brackets in two ways.
proof fn lemma_regroup(
    r_a: Seq<char>,
    cut_a: Seq<char>,
    opening: Seq<char>,
    flushed: Seq<char>,
    r_b: Seq<char>,
    cut_b: Seq<char>,
    held: Seq<char>,
    closing: Seq<char>,
    r_c: Seq<char>,
)
    ensures
        (r_a + ((cut_a + (opening + flushed)) + (r_b + ((cut_b + (held + closing)) + r_c)))).push(
            '\n',
        ) == (r_a + cut_a) + opening + (flushed + r_b + cut_b) + held + closing + r_c.push('\n'),
{
    assert((r_a + ((cut_a + (opening + flushed)) + (r_b + ((cut_b + (held + closing))
        + r_c)))).push('\n') =~= (r_a + cut_a) + opening + (flushed + r_b + cut_b) + held + closing
        + r_c.push('\n'));
}

/// The parts of the wrapped form have the parentheses of the parts of the
/// line.
proof fn lemma_parts_share(frame: Frame, line: Seq<char>, first: int, second: int, p: char)
    requires
        quoted_at(line, frame.quote, first, second),
        paren(p, frame.quote),
    ensures
        parts_of(frame, line, first, second).shares(line, first, second, p),
{
    let quote = frame.quote;
    let a = line.take(first);
    let b = line.subrange(first + 1, second);
    let c = line.skip(second + 1);
    let at = stations(frame, line, first, second);
    let r_a = frame.render(start(), a);
    let r_b = frame.render(at.after_first, b);
    let r_c = frame.render(at.after_second, c);
    let flushed = if is_word_char(quote) {
        Seq::empty()
    } else {
        at.before_first.word
    };
    lemma_two_quotes(line, quote, first, second);
    lemma_count_absent(a, quote);
    lemma_count_absent(b, quote);
    lemma_count_absent(c, quote);
    assert(count_of(Seq::<char>::empty(), p) == 0);
    lemma_render_parens(frame, start(), a, p);
    lemma_emitted_count(frame, at.before_first, quote, p);
    lemma_render_parens(frame, at.after_first, b, p);
    lemma_emitted_count(frame, at.before_second, quote, p);
    lemma_render_parens(frame, at.after_second, c, p);
    lemma_cut_count(frame, at.before_first, p);
    lemma_cut_count(frame, at.before_second, p);
    lemma_count_one('\n', p);
    lemma_count_concat(r_a, frame.cut(at.before_first), p);
    lemma_count_concat(flushed, r_b, p);
    lemma_count_concat(flushed + r_b, frame.cut(at.before_second), p);
    lemma_count_concat(flushed + r_b + frame.cut(at.before_second), at.before_second.word, p);
    assert(r_c.push('\n') == r_c + seq!['\n']);
    lemma_count_concat(r_c, seq!['\n'], p);
}

/// A line with two quotes gets one group, which the two quotes open and
/// close. Its wrapped form is: a head, the opening of the group, a body, the
/// word that is held when the second quote is read, the closing of the
/// group, and a tail. Where the quote is no parenthesis, the wrapped form has
/// one `(` and one `)` more than the line, and they are those of the opening
/// and the closing: the head, the body with the held word, and the tail have
/// the parentheses that the line has before its first quote, between the
/// two, and after the second.
pub proof fn lemma_quote_balancing(
    line: Seq<char>,
    width: nat,
    quote: char,
    first: int,
    second: int,
) -> (parts: Grouped)
    requires
        quoted_at(line, quote, first, second),
    ensures
        wrapped(line, width, quote) == parts.joined(leading_spaces(line), quote),
        parts.held == Frame::of(line, width, quote).walk(start(), line.take(second)).word,
        quote != '(' && quote != ')' ==> {
            &&& count_of(wrapped(line, width, quote), '(') == count_of(line, '(') + 1
            &&& count_of(wrapped(line, width, quote), ')') == count_of(line, ')') + 1
            &&& parts.shares(line, first, second, '(')
            &&& parts.shares(line, first, second, ')')
        },
{
    let frame = Frame::of(line, width, quote);
    let at = stations(frame, line, first, second);
    let parts = parts_of(frame, line, first, second);
    lemma_scan_in_five(frame, line, first, second);
    lemma_quotes_emit(frame, line, first, second);
    lemma_regroup(
        frame.render(start(), line.take(first)),
        frame.cut(at.before_first),
        group_open(frame.indent, quote),
        if is_word_char(quote) {
            Seq::empty()
        } else {
            at.before_first.word
        },
        frame.render(at.after_first, line.subrange(first + 1, second)),
        frame.cut(at.before_second),
        at.before_second.word,
        group_close(frame.indent, quote),
        frame.render(at.after_second, line.skip(second + 1)),
    );
    if quote != '(' && quote != ')' {
        lemma_two_quotes(line, quote, first, second);
        lemma_parentheses_added(line, width, quote);
        lemma_parts_share(frame, line, first, second, '(');
        lemma_parts_share(frame, line, first, second, ')');
    }
    parts
}

} // verus!
