//! Where, and how often, one text stands in another.

use vstd::prelude::*;
use crate::text::spaces;

verus! {

/// Whether `piece` stands in `text` from position `at` on.
pub open spec fn begins_at(text: Seq<char>, at: int, piece: Seq<char>) -> bool {
    &&& 0 <= at
    &&& at + piece.len() <= text.len()
    &&& text.subrange(at, at + piece.len()) == piece
}

/// Whether `piece` stands somewhere in `text`, unbroken.
pub open spec fn occurs_in(text: Seq<char>, piece: Seq<char>) -> bool {
    exists|at: int| begins_at(text, at, piece)
}

/// How often `c` stands in `text`.
pub open spec fn count_of(text: Seq<char>, c: char) -> nat
    decreases text.len(),
{
    if text.len() == 0 {
        0
    } else {
        count_of(text.drop_first(), c) + if text[0] == c {
            1nat
        } else {
            0nat
        }
    }
}

/// Whether `text` holds `c` nowhere.
pub open spec fn free_of(text: Seq<char>, c: char) -> bool {
    forall|k: int| 0 <= k < text.len() ==> #[trigger] text[k] != c
}

/// What stands in `a` stands at the same place in `a + b`.
pub proof fn lemma_begins_at_left(a: Seq<char>, b: Seq<char>, at: int, piece: Seq<char>)
    requires
        begins_at(a, at, piece),
    ensures
        begins_at(a + b, at, piece),
{
    assert((a + b).subrange(at, at + piece.len()) =~= a.subrange(at, at + piece.len()));
}

/// What stands in `b` stands in `a + b`, as much later as `a` is long.
pub proof fn lemma_begins_at_right(a: Seq<char>, b: Seq<char>, at: int, piece: Seq<char>)
    requires
        begins_at(b, at, piece),
    ensures
        begins_at(a + b, a.len() + at, piece),
{
    assert((a + b).subrange(a.len() + at, a.len() + at + piece.len()) =~= b.subrange(
        at,
        at + piece.len(),
    ));
}

/// What occurs in `a` occurs in `a + b`.
pub proof fn lemma_occurs_left(a: Seq<char>, b: Seq<char>, piece: Seq<char>)
    requires
        occurs_in(a, piece),
    ensures
        occurs_in(a + b, piece),
{
    let at = choose|at: int| begins_at(a, at, piece);
    lemma_begins_at_left(a, b, at, piece);
}

/// What occurs in `b` occurs in `a + b`.
pub proof fn lemma_occurs_right(a: Seq<char>, b: Seq<char>, piece: Seq<char>)
    requires
        occurs_in(b, piece),
    ensures
        occurs_in(a + b, piece),
{
    let at = choose|at: int| begins_at(b, at, piece);
    lemma_begins_at_right(a, b, at, piece);
}

/// A text occurs in itself.
pub proof fn lemma_occurs_in_itself(text: Seq<char>)
    ensures
        occurs_in(text, text),
{
    assert(text.subrange(0, text.len() as int) =~= text);
    assert(begins_at(text, 0, text));
}

/// `a + b` holds `c` as often as `a` and `b` together.
pub proof fn lemma_count_concat(a: Seq<char>, b: Seq<char>, c: char)
    ensures
        count_of(a + b, c) == count_of(a, c) + count_of(b, c),
    decreases a.len(),
{
    if a.len() == 0 {
        assert(a + b == b);
    } else {
        assert((a + b).drop_first() == a.drop_first() + b);
        lemma_count_concat(a.drop_first(), b, c);
    }
}

/// A single character holds itself once, and no other.
pub proof fn lemma_count_one(x: char, c: char)
    ensures
        count_of(seq![x], c) == if x == c {
            1nat
        } else {
            0nat
        },
{
    assert(seq![x].drop_first() == Seq::<char>::empty());
    assert(count_of(Seq::<char>::empty(), c) == 0);
}

/// A run of spaces holds nothing but spaces.
pub proof fn lemma_count_spaces(n: nat, c: char)
    requires
        c != ' ',
    ensures
        count_of(spaces(n), c) == 0,
    decreases n,
{
    if n > 0 {
        assert(spaces(n).drop_first() == spaces((n - 1) as nat));
        lemma_count_spaces((n - 1) as nat, c);
    }
}

/// A text is free of `c` just when it holds `c` no times.
pub proof fn lemma_count_absent(text: Seq<char>, c: char)
    ensures
        free_of(text, c) <==> count_of(text, c) == 0,
    decreases text.len(),
{
    if text.len() > 0 {
        let rest = text.drop_first();
        lemma_count_absent(rest, c);
        if free_of(text, c) {
            assert(text[0] != c);
            assert forall|k: int| 0 <= k < rest.len() implies #[trigger] rest[k] != c by {
                assert(rest[k] == text[k + 1]);
            }
        }
        if count_of(text, c) == 0 {
            assert forall|k: int| 0 <= k < text.len() implies #[trigger] text[k] != c by {
                if k > 0 {
                    assert(text[k] == rest[k - 1]);
                }
            }
        }
    }
}

/// The part of a text that is free of `c` is free of `c`.
pub proof fn lemma_free_of_part(text: Seq<char>, c: char, from: int, to: int)
    requires
        0 <= from <= to <= text.len(),
        forall|k: int| from <= k < to ==> #[trigger] text[k] != c,
    ensures
        free_of(text.subrange(from, to), c),
{
    let part = text.subrange(from, to);
    assert forall|k: int| 0 <= k < part.len() implies #[trigger] part[k] != c by {
        assert(part[k] == text[from + k]);
    }
}

} // verus!
