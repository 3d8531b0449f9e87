//! Characters, runs of spaces and indentation.

use vstd::prelude::*;
#[allow(unused_imports)]
use vstd::std_specs::iter::IteratorSpec;
#[allow(unused_imports)]
use vstd::string::StringSliceAdditionalSpecFns;
use vstd::utf8::encode_utf8;

verus! {

/// Whether `c` is an ASCII letter or an ASCII digit.
pub open spec fn is_word_char(c: char) -> bool {
    ('0' <= c && c <= '9') || ('A' <= c && c <= 'Z') || ('a' <= c && c <= 'z')
}

/// Tells whether `c` is an ASCII letter or an ASCII digit.
pub fn word_char(c: char) -> (r: bool)
    ensures
        r == is_word_char(c),
{
    ('0' <= c && c <= '9') || ('A' <= c && c <= 'Z') || ('a' <= c && c <= 'z')
}

/// A run of `n` space characters.
pub open spec fn spaces(n: nat) -> Seq<char> {
    Seq::new(n, |i: int| ' ')
}

/// The number of space characters that `s` begins with.
pub open spec fn leading_spaces(s: Seq<char>) -> nat
    decreases s.len(),
{
    if s.len() > 0 && s[0] == ' ' {
        1 + leading_spaces(s.drop_first())
    } else {
        0
    }
}

/// `n` is the length of the longest run of spaces that `s` begins with.
pub open spec fn is_indent_of(s: Seq<char>, n: nat) -> bool {
    &&& n <= s.len()
    &&& forall|i: int| 0 <= i < n ==> s[i] == ' '
    &&& n < s.len() ==> s[n as int] != ' '
}

/// `leading_spaces` is the one number that `is_indent_of` holds of.
pub proof fn lemma_leading_spaces(s: Seq<char>)
    ensures
        is_indent_of(s, leading_spaces(s)),
        forall|n: nat| is_indent_of(s, n) ==> n == leading_spaces(s),
    decreases s.len(),
{
    if s.len() > 0 && s[0] == ' ' {
        let t = s.drop_first();
        lemma_leading_spaces(t);
        let m = leading_spaces(t);
        assert forall|i: int| 0 <= i < m + 1 implies s[i] == ' ' by {
            if i > 0 {
                assert(s[i] == t[i - 1]);
            }
        }
        if m + 1 < s.len() {
            assert(s[m as int + 1] == t[m as int]);
        }
        assert forall|n: nat| is_indent_of(s, n) implies n == m + 1 by {
            assert(n > 0);
            let k = (n - 1) as nat;
            assert forall|i: int| 0 <= i < k implies t[i] == ' ' by {
                assert(t[i] == s[i + 1]);
            }
            if k < t.len() {
                assert(t[k as int] == s[n as int]);
            }
            assert(is_indent_of(t, k));
        }
    } else {
        assert forall|n: nat| is_indent_of(s, n) implies n == 0 by {
            if n > 0 {
                assert(s[0] == ' ');
            }
        }
    }
}

/// A sequence of characters is no longer than its UTF-8 encoding.
proof fn lemma_encoding_covers(chars: Seq<char>)
    ensures
        chars.len() <= encode_utf8(chars).len(),
    decreases chars.len(),
{
    if chars.len() > 0 {
        lemma_encoding_covers(chars.drop_first());
    }
}

/// The number of bytes of `s`. No string has more characters than bytes.
pub fn byte_len(s: &str) -> (n: usize)
    ensures
        n == s.spec_bytes().len(),
        s@.len() <= n,
{
    proof {
        lemma_encoding_covers(s@);
    }
    s.as_bytes().len()
}

/// Counts the space characters that `s` begins with.
pub fn count_leading_spaces(s: &str) -> (n: usize)
    ensures
        n == leading_spaces(s@),
        is_indent_of(s@, n as nat),
{
    broadcast use vstd::string::group_string_axioms;

    proof {
        lemma_leading_spaces(s@);
    }
    let limit = byte_len(s);
    let mut it = s.chars();
    let mut n: usize = 0;
    while n < limit
        invariant_except_break
            it.remaining() == s@.skip(n as int),
        invariant
            s@.len() <= limit,
            it.obeys_prophetic_iter_laws(),
            n <= s@.len(),
            forall|i: int| 0 <= i < n ==> s@[i] == ' ',
        ensures
            is_indent_of(s@, n as nat),
        decreases limit - n,
    {
        match it.next() {
            Some(c) => {
                if c == ' ' {
                    assert(s@.skip(n as int).drop_first() == s@.skip(n + 1));
                    n = n + 1;
                } else {
                    break ;
                }
            },
            None => {
                break ;
            },
        }
    }
    n
}

/// `String::push` of std: the string is afterwards what it was, with `c` as
/// one more character at its end.
pub assume_specification[ String::push ](s: &mut String, c: char)
    ensures
        final(s)@ == old(s)@.push(c),
;

/// Appends the characters of `chars` to `out`, in their order.
pub fn push_chars(out: &mut String, chars: &Vec<char>)
    ensures
        final(out)@ == old(out)@ + chars@,
{
    let n = chars.len();
    let mut k: usize = 0;
    while k < n
        invariant
            n == chars@.len(),
            k <= n,
            out@ == old(out)@ + chars@.take(k as int),
        decreases n - k,
    {
        out.push(chars[k]);
        k = k + 1;
        assert(chars@.take(k as int) == chars@.take(k - 1).push(chars@[k - 1]));
    }
    assert(chars@.take(n as int) == chars@);
}

} // verus!
