//! From the bytes that were read to the text that is written.

use vstd::prelude::*;
#[allow(unused_imports)]
use vstd::std_specs::iter::IteratorSpec;
use vstd::string::StrSliceExecFns;
use vstd::utf8::{decode_utf8, valid_utf8};
use crate::scan::reflow;
use crate::text::byte_len;
use crate::wrap::wrap_line;

verus! {

/// Whether `c` is whitespace: one of the characters that Unicode marks as
/// White_Space.
pub open spec fn is_whitespace(c: char) -> bool {
    ||| '\u{9}' <= c <= '\u{d}'
    ||| c == ' '
    ||| c == '\u{85}'
    ||| c == '\u{a0}'
    ||| c == '\u{1680}'
    ||| '\u{2000}' <= c <= '\u{200a}'
    ||| c == '\u{2028}'
    ||| c == '\u{2029}'
    ||| c == '\u{202f}'
    ||| c == '\u{205f}'
    ||| c == '\u{3000}'
}

/// Tells whether `c` is whitespace.
pub fn whitespace(c: char) -> (r: bool)
    ensures
        r == is_whitespace(c),
{
    ('\u{9}' <= c && c <= '\u{d}') || c == ' ' || c == '\u{85}' || c == '\u{a0}' || c
        == '\u{1680}' || ('\u{2000}' <= c && c <= '\u{200a}') || c == '\u{2028}' || c
        == '\u{2029}' || c == '\u{202f}' || c == '\u{205f}' || c == '\u{3000}'
}

/// `text` without the whitespace that it ends in.
pub open spec fn trimmed(text: Seq<char>) -> Seq<char>
    decreases text.len(),
{
    if text.len() > 0 && is_whitespace(text.last()) {
        trimmed(text.drop_last())
    } else {
        text
    }
}

/// Whether `kept` is `text` without the whitespace that it ends in: `kept` is
/// the beginning of `text`, all that follows it in `text` is whitespace, and
/// its own last character is none.
pub open spec fn is_trimmed(text: Seq<char>, kept: Seq<char>) -> bool {
    &&& kept.len() <= text.len()
    &&& kept == text.take(kept.len() as int)
    &&& forall|k: int| kept.len() <= k < text.len() ==> is_whitespace(#[trigger] text[k])
    &&& kept.len() > 0 ==> !is_whitespace(kept.last())
}

/// `trimmed(text)` is `text` without the whitespace that it ends in.
pub proof fn lemma_trimmed(text: Seq<char>)
    ensures
        is_trimmed(text, trimmed(text)),
    decreases text.len(),
{
    if text.len() > 0 && is_whitespace(text.last()) {
        let shorter = text.drop_last();
        let kept = trimmed(shorter);
        lemma_trimmed(shorter);
        assert(kept == text.take(kept.len() as int)) by {
            assert(shorter.take(kept.len() as int) =~= text.take(kept.len() as int));
        }
        assert forall|k: int| kept.len() <= k < text.len() implies is_whitespace(
            #[trigger] text[k],
        ) by {
            if k < shorter.len() {
                assert(text[k] == shorter[k]);
            }
        }
    } else {
        assert(text.take(text.len() as int) =~= text);
    }
}

/// Why no line could be made of what was read.
#[derive(Clone, Copy, Debug, PartialEq, Eq, Structural)]
pub enum InputError {
    /// The bytes are not UTF-8.
    InvalidText,
}

/// `core::str::from_utf8` of std: bytes that are UTF-8 are handed back as the
/// text that they encode, any others are refused.
#[verifier::external_body]
fn decode(bytes: &[u8]) -> (r: Option<&str>)
    ensures
        r is Some <==> valid_utf8(bytes@),
        r is Some ==> r->0@ == decode_utf8(bytes@),
{
    core::str::from_utf8(bytes).ok()
}

/// Cuts off the whitespace that `s` ends in.
pub fn trim_end(s: &str) -> (r: &str)
    ensures
        r@ == trimmed(s@),
        is_trimmed(s@, r@),
{
    broadcast use vstd::string::group_string_axioms;

    proof {
        lemma_trimmed(s@);
    }
    let limit = byte_len(s);
    let mut it = s.chars();
    let mut seen: usize = 0;
    let mut keep: usize = 0;
    while seen < limit
        invariant
            s@.len() <= limit,
            it.obeys_prophetic_iter_laws(),
            keep <= seen <= s@.len(),
            it.remaining() == s@.skip(seen as int),
            trimmed(s@.take(seen as int)) == s@.take(keep as int),
        ensures
            seen == s@.len(),
        decreases limit - seen,
    {
        match it.next() {
            Some(c) => {
                proof {
                    let upto = s@.take(seen + 1);
                    assert(upto.last() == c);
                    assert(upto.drop_last() == s@.take(seen as int));
                    assert(s@.skip(seen as int).drop_first() == s@.skip(seen + 1));
                }
                seen = seen + 1;
                if !whitespace(c) {
                    keep = seen;
                }
            },
            None => {
                assert(s@.skip(seen as int).len() == 0);
                break ;
            },
        }
    }
    assert(s@.take(seen as int) == s@);
    s.substring_char(0, keep)
}

/// The whole filter. Bytes that are UTF-8 are read as one line: the
/// whitespace that it ends in is cut off, and the line is reflowed. Any
/// other bytes are refused.
pub fn filter(input: &[u8], width: u8, quote: char) -> (r: Result<String, InputError>)
    ensures
        valid_utf8(input@) ==> r is Ok && r->Ok_0@ == reflow(
            trimmed(decode_utf8(input@)),
            width as nat,
            quote,
        ),
        !valid_utf8(input@) ==> r == Err::<String, InputError>(InputError::InvalidText),
{
    match decode(input) {
        Some(text) => Ok(wrap_line(trim_end(text), width, quote)),
        None => Err(InputError::InvalidText),
    }
}

} // verus!
