//! URL validation, canonicalization and relative-reference resolution,
//! delegated to the `url` crate. The library holds URLs as their canonical
//! serialization, a plain `String`; the two wrappers here are the only
//! places where the outside crate is consulted.
use vstd::prelude::*;

verus! {

/// Whether `s` parses as an absolute URL; decided by `url::Url::parse`,
/// which depends on the string alone.
pub uninterp spec fn url_ok(s: Seq<char>) -> bool;

/// The canonical serialization of the URL written `s`; produced by
/// `url::Url::parse` followed by `url::Url::as_str`, which depend on the
/// string alone.
pub uninterp spec fn url_canon(s: Seq<char>) -> Seq<char>;

/// Whether the reference `rel` resolves against the base URL `base`;
/// decided by `url::Url::parse` on the base and `url::Url::join` on the
/// reference, which depend on the two strings alone.
pub uninterp spec fn url_join_ok(base: Seq<char>, rel: Seq<char>) -> bool;

/// The canonical serialization of `rel` resolved against `base`, under the
/// same functions as `url_join_ok`.
pub uninterp spec fn url_joined(base: Seq<char>, rel: Seq<char>) -> Seq<char>;

/// Relies on `url::Url::parse` and `url::Url::as_str`: parsing either
/// yields the URL in canonical serialized form or fails, and the outcome
/// is a function of the input string.
#[verifier::external_body]
pub fn parse_url(s: &str) -> (r: Option<String>)
    ensures
        r is Some <==> url_ok(s@),
        r matches Some(u) ==> u@ == url_canon(s@),
{
    match url::Url::parse(s) {
        Ok(u) => Some(u.as_str().to_string()),
        Err(_) => None,
    }
}

/// Relies on `url::Url::parse`, `url::Url::join` and `url::Url::as_str`:
/// resolving a reference against a base URL either yields a canonical
/// absolute URL or fails, and the outcome is a function of the two
/// strings.
#[verifier::external_body]
pub fn join_url(base: &str, rel: &str) -> (r: Option<String>)
    ensures
        r is Some <==> url_join_ok(base@, rel@),
        r matches Some(u) ==> u@ == url_joined(base@, rel@),
{
    match url::Url::parse(base) {
        Ok(b) => match b.join(rel) {
            Ok(u) => Some(u.as_str().to_string()),
            Err(_) => None,
        },
        Err(_) => None,
    }
}

} // verus!
