//! Strings as sequences of characters.

use vstd::prelude::*;

verus! {

/// The character sequences of a sequence of strings, in order.
pub open spec fn texts_of(words: Seq<String>) -> Seq<Seq<char>> {
    Seq::new(words.len(), |i: int| words[i]@)
}

/// Whether two string slices hold the same characters in the same order.
pub fn same_text(a: &str, b: &str) -> (r: bool)
    ensures
        r == (a@ == b@),
{
    a.to_owned() == b.to_owned()
}

} // verus!
