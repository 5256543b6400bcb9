//! Regular expressions, through the `regex` crate. Whether a pattern
//! compiles, and whether it matches a text, are functions of the strings
//! alone; the library gives each a name and trusts the crate for the rest.

use vstd::prelude::*;

verus! {

/// Whether `pattern` is a valid regular expression: whether
/// `regex::Regex::new` accepts it.
pub uninterp spec fn regex_valid(pattern: Seq<char>) -> bool;

/// Whether the valid pattern `pattern` matches anywhere in `text`.
pub uninterp spec fn regex_match(pattern: Seq<char>, text: Seq<char>) -> bool;

/// Relies on `regex::Regex::new`: it returns `Ok` exactly on the patterns it
/// accepts, and acceptance depends on the pattern string alone.
#[verifier::external_body]
pub(crate) fn regex_compiles(pattern: &str) -> (r: bool)
    ensures
        r == regex_valid(pattern@),
{
    regex::Regex::new(pattern).is_ok()
}

/// Relies on `regex::Regex::new` and `regex::Regex::is_match`: `is_match` is
/// true exactly when the compiled pattern matches somewhere in the haystack,
/// and the answer depends on the two strings alone.
#[verifier::external_body]
pub(crate) fn regex_search(pattern: &str, text: &str) -> (r: bool)
    ensures
        r == (regex_valid(pattern@) && regex_match(pattern@, text@)),
{
    match regex::Regex::new(pattern) {
        Ok(re) => re.is_match(text),
        Err(_) => false,
    }
}

} // verus!
