//! The options of the filter, as they are written on a command line.

use vstd::prelude::*;
#[allow(unused_imports)]
use vstd::std_specs::iter::IteratorSpec;

verus! {

/// The quote character that `arg` names: `arg` itself, where it is exactly
/// one character, and none otherwise.
pub open spec fn quote_of(arg: Seq<char>) -> Option<char> {
    if arg.len() == 1 {
        Some(arg[0])
    } else {
        None
    }
}

/// Reads the quote character from the value of its option. A value that is
/// empty, or longer than one character, names none.
pub fn quote_from(arg: &str) -> (quote: Option<char>)
    ensures
        quote == quote_of(arg@),
{
    broadcast use vstd::string::group_string_axioms;

    let mut it = arg.chars();
    match it.next() {
        Some(c) => {
            match it.next() {
                Some(_) => None,
                None => Some(c),
            }
        },
        None => None,
    }
}

} // verus!
