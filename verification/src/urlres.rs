//! URL resolution against the playlist's own URL.
//!
//! Parsing and joining follow the WHATWG URL standard and are done by
//! the `url` crate behind trusted wrappers; what they return is named
//! by uninterpreted spec functions, and the resolution rule itself is
//! verified against those names.

use vstd::prelude::*;

verus! {

/// Serialization of `url::Url::parse` on these bytes (read as UTF-8),
/// or `None` where the bytes are no absolute URL.
pub uninterp spec fn abs_url_of(s: Seq<u8>) -> Option<Seq<u8>>;

/// Serialization of joining a reference onto a base with
/// `url::Url::join`, or `None` where the base does not parse or the
/// join fails.
pub uninterp spec fn joined_url_of(base: Seq<u8>, reference: Seq<u8>) -> Option<Seq<u8>>;

/// Path component of the absolute URL these bytes parse to.
pub uninterp spec fn url_path_of(s: Seq<u8>) -> Seq<u8>;

/// Relies on `url::Url::parse` (and `Url::as_str` for the result): the
/// serialization of the parsed URL depends on the input bytes alone.
#[verifier::external_body]
pub(crate) fn parse_abs_url(s: &[u8]) -> (r: Option<Vec<u8>>)
    ensures
        r matches Some(v) ==> abs_url_of(s@) == Some(v@),
        r is None <==> abs_url_of(s@) is None,
{
    let text = core::str::from_utf8(s).ok()?;
    let parsed = url::Url::parse(text).ok()?;
    Some(parsed.as_str().as_bytes().to_vec())
}

/// Relies on `url::Url::join` (with `Url::parse` for the base and
/// `Url::as_str` for the result): the joined serialization depends on
/// the two inputs alone.
#[verifier::external_body]
pub(crate) fn join_url(base: &[u8], reference: &[u8]) -> (r: Option<Vec<u8>>)
    ensures
        r matches Some(v) ==> joined_url_of(base@, reference@) == Some(v@),
        r is None <==> joined_url_of(base@, reference@) is None,
{
    let base_text = core::str::from_utf8(base).ok()?;
    let ref_text = core::str::from_utf8(reference).ok()?;
    let parsed = url::Url::parse(base_text).ok()?;
    let joined = parsed.join(ref_text).ok()?;
    Some(joined.as_str().as_bytes().to_vec())
}

/// Relies on `url::Url::path` (with `Url::parse`): the path component
/// depends on the input bytes alone.
#[verifier::external_body]
pub(crate) fn url_path(s: &[u8]) -> (r: Option<Vec<u8>>)
    ensures
        r matches Some(v) ==> abs_url_of(s@) is Some && v@ == url_path_of(s@),
        r is None <==> abs_url_of(s@) is None,
{
    let text = core::str::from_utf8(s).ok()?;
    let parsed = url::Url::parse(text).ok()?;
    Some(parsed.path().as_bytes().to_vec())
}

/// The resolution rule of the rewriter: a candidate that parses as an
/// absolute URL stands for itself; anything else is joined onto the
/// playlist's base URL; `None` where both fail.
pub open spec fn resolve_spec(candidate: Seq<u8>, base: Seq<u8>) -> Option<Seq<u8>> {
    if abs_url_of(candidate) is Some {
        abs_url_of(candidate)
    } else {
        joined_url_of(base, candidate)
    }
}

/// Resolve a reference string against the playlist's base URL:
/// absolute if it already is, else joined as a relative reference.
pub fn resolve_reference(candidate: &[u8], base: &[u8]) -> (r: Option<Vec<u8>>)
    ensures
        r matches Some(v) ==> resolve_spec(candidate@, base@) == Some(v@),
        r is None <==> resolve_spec(candidate@, base@) is None,
{
    match parse_abs_url(candidate) {
        Some(v) => Some(v),
        None => join_url(base, candidate),
    }
}

/// A reference that is no absolute URL resolves to exactly the
/// standard relative-URL join of the reference onto the base.
pub proof fn lemma_relative_resolution(candidate: Seq<u8>, base: Seq<u8>)
    requires
        abs_url_of(candidate) is None,
    ensures
        resolve_spec(candidate, base) == joined_url_of(base, candidate),
{
}

} // verus!
