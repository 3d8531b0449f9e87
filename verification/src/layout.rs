//! The pieces of text that wrapping inserts into a line.

use vstd::prelude::*;
use crate::text::spaces;

verus! {

/// How much deeper than the line itself its continuation lines are indented.
pub const CONTINUATION_INDENT: usize = 4;

/// The spaces that every continuation line begins with.
pub open spec fn continuation_prefix(indent: nat) -> Seq<char> {
    spaces(indent + CONTINUATION_INDENT as nat)
}

/// What is inserted where a literal is cut: it is closed, and opened again on
/// a continuation line.
pub open spec fn line_break(indent: nat, quote: char) -> Seq<char> {
    seq![quote, '\n'] + continuation_prefix(indent) + seq![quote]
}

/// What replaces the quote that opens the literal: the parenthesis that opens
/// the group, and the quote on a continuation line.
pub open spec fn group_open(indent: nat, quote: char) -> Seq<char> {
    seq!['(', '\n'] + continuation_prefix(indent) + seq![quote]
}

/// What replaces the quote that closes the literal: the quote, and the
/// parenthesis that closes the group on a line indented as the line itself.
pub open spec fn group_close(indent: nat, quote: char) -> Seq<char> {
    seq![quote, '\n'] + spaces(indent) + seq![')']
}

/// Appends `n` spaces to `v`.
fn pad(v: &mut Vec<char>, n: usize)
    ensures
        final(v)@ == old(v)@ + spaces(n as nat),
{
    let mut k: usize = 0;
    while k < n
        invariant
            k <= n,
            v@ == old(v)@ + spaces(k as nat),
        decreases n - k,
    {
        v.push(' ');
        k = k + 1;
        assert(v@ == old(v)@ + spaces(k as nat));
    }
}

/// The text `line_break(indent, quote)`.
pub fn line_break_text(indent: usize, quote: char) -> (v: Vec<char>)
    ensures
        v@ == line_break(indent as nat, quote),
{
    let mut v: Vec<char> = Vec::new();
    v.push(quote);
    v.push('\n');
    pad(&mut v, indent);
    pad(&mut v, CONTINUATION_INDENT);
    v.push(quote);
    assert(v@ == line_break(indent as nat, quote));
    v
}

/// The text `group_open(indent, quote)`.
pub fn group_open_text(indent: usize, quote: char) -> (v: Vec<char>)
    ensures
        v@ == group_open(indent as nat, quote),
{
    let mut v: Vec<char> = Vec::new();
    v.push('(');
    v.push('\n');
    pad(&mut v, indent);
    pad(&mut v, CONTINUATION_INDENT);
    v.push(quote);
    assert(v@ == group_open(indent as nat, quote));
    v
}

/// The text `group_close(indent, quote)`.
pub fn group_close_text(indent: usize, quote: char) -> (v: Vec<char>)
    ensures
        v@ == group_close(indent as nat, quote),
{
    let mut v: Vec<char> = Vec::new();
    v.push(quote);
    v.push('\n');
    pad(&mut v, indent);
    v.push(')');
    assert(v@ == group_close(indent as nat, quote));
    v
}

} // verus!
