//! Small string helpers shared by the services: trimming, lowercasing,
//! equality of strings and optional strings, and a JSON validity check.

use vstd::prelude::*;
use vstd::string::StringExecFns;

verus! {

/// What `str::trim` returns: the input without leading and trailing
/// whitespace.  The result depends on the characters alone.
pub uninterp spec fn trim_of(s: Seq<char>) -> Seq<char>;

/// What `str::to_lowercase` returns: the Unicode lowercase form of the
/// input.  The result depends on the characters alone.
pub uninterp spec fn lower_of(s: Seq<char>) -> Seq<char>;

/// Whether `serde_json` accepts the input as a JSON document.
pub uninterp spec fn is_json(s: Seq<char>) -> bool;

/// Relies on std's `str::trim`, which returns a substring of its input with
/// leading and trailing whitespace removed.
#[verifier::external_body]
pub fn trim_str<'a>(s: &'a str) -> (r: &'a str)
    ensures
        r@ == trim_of(s@),
{
    s.trim()
}

/// Relies on std's `str::to_lowercase`, whose result is determined by the
/// characters of the input alone.
#[verifier::external_body]
pub fn lowercase_str(s: &str) -> (r: String)
    ensures
        r@ == lower_of(s@),
{
    s.to_lowercase()
}

/// Relies on `serde_json::from_str::<serde_json::Value>`, which accepts
/// exactly the well-formed JSON documents; the outcome is determined by the
/// characters of the input alone.
#[verifier::external_body]
pub fn json_is_valid(s: &str) -> (r: bool)
    ensures
        r == is_json(s@),
{
    serde_json::from_str::<serde_json::Value>(s).is_ok()
}

/// Relies on `uuid::Uuid::new_v4`: its hyphenated text form is exactly 36
/// characters.
#[verifier::external_body]
pub(crate) fn new_uuid() -> (r: String)
    ensures
        r@.len() == 36,
{
    uuid::Uuid::new_v4().to_string()
}

/// A fresh row id: a short table prefix followed by a UUID.
pub(crate) fn prefixed_uuid(prefix: &str) -> (r: String)
    ensures
        r@.len() == prefix@.len() + 36,
{
    let mut s = prefix.to_owned();
    let u = new_uuid();
    s.append(u.as_str());
    s
}

/// Character-wise equality of two string slices.
pub fn str_eq(a: &str, b: &str) -> (r: bool)
    ensures
        r == (a@ == b@),
{
    let aa: String = a.to_owned();
    let bb: String = b.to_owned();
    aa == bb
}

/// Equality of two optional strings, character-wise in the `Some` cases.
pub open spec fn opt_str_matches(a: Option<String>, b: Option<String>) -> bool {
    match (a, b) {
        (Option::None, Option::None) => true,
        (Option::Some(x), Option::Some(y)) => x@ == y@,
        _ => false,
    }
}

/// Executable counterpart of [`opt_str_matches`].
pub fn opt_str_eq(a: &Option<String>, b: &Option<String>) -> (r: bool)
    ensures
        r == opt_str_matches(*a, *b),
{
    match (a, b) {
        (Option::None, Option::None) => true,
        (Option::Some(x), Option::Some(y)) => *x == *y,
        _ => false,
    }
}

/// The characters of an optional string.
pub open spec fn view_opt(o: Option<String>) -> Option<Seq<char>> {
    match o {
        Option::None => None,
        Option::Some(s) => Some(s@),
    }
}

/// The string kept when a patch field is present, otherwise the current one.
pub open spec fn coalesce<T>(patch: Option<T>, current: T) -> T {
    match patch {
        Option::Some(v) => v,
        Option::None => current,
    }
}

} // verus!
