//! Searching a text for a regular expression.

use vstd::prelude::*;

verus! {

/// Whether `regex::Regex::new` accepts `pattern`.
pub uninterp spec fn pattern_compiles(pattern: Seq<char>) -> bool;

/// Whether the regular expression compiled from `pattern` matches somewhere
/// in `text`, as `regex::Regex::is_match` tells.
pub uninterp spec fn pattern_matches(pattern: Seq<char>, text: Seq<char>) -> bool;

/// Compiles `pattern` with `regex::Regex::new` and searches `text` with
/// `Regex::is_match`. The result is `None` exactly where the pattern is
/// rejected; otherwise it says whether there is a match anywhere in `text`.
/// Both depend on the two strings alone. Neither call is specified further.
#[verifier::external_body]
pub(crate) fn search(pattern: &str, text: &str) -> (r: Option<bool>)
    ensures
        r is Some == pattern_compiles(pattern@),
        r matches Some(found) ==> found == pattern_matches(pattern@, text@),
{
    match regex::Regex::new(pattern) {
        Ok(re) => Some(re.is_match(text)),
        Err(_) => None,
    }
}

} // verus!
