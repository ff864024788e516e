//! Regular-expression search, delegated to the `regex` crate. The search
//! commands take a user-written pattern; whether it compiles and whether
//! it matches a line's text are decided here.
use vstd::prelude::*;

verus! {

/// Whether `pat` is a well-formed pattern; decided by `regex::Regex::new`,
/// which depends on the pattern alone.
pub uninterp spec fn pattern_ok(pat: Seq<char>) -> bool;

/// Whether the pattern `pat` matches somewhere in `text`; decided by
/// `regex::Regex::is_match`, which depends on the two strings alone.
pub uninterp spec fn pattern_matches(pat: Seq<char>, text: Seq<char>) -> bool;

/// Relies on `regex::Regex::new` and `regex::Regex::is_match`: a pattern
/// either fails to compile, whatever the text, or reports for each text
/// whether it matches; both outcomes are functions of the two strings.
#[verifier::external_body]
pub fn regex_is_match(pat: &str, text: &str) -> (r: Option<bool>)
    ensures
        r is Some <==> pattern_ok(pat@),
        r matches Some(m) ==> m == pattern_matches(pat@, text@),
{
    match regex::Regex::new(pat) {
        Ok(re) => Some(re.is_match(text)),
        Err(_) => None,
    }
}

} // verus!
