//! Base URLs of providers, checked and normalised by the `url` crate.
use vstd::prelude::*;

verus! {

#[verifier::external_type_specification]
#[verifier::external_body]
pub struct ExUrlParseError(url::ParseError);

/// The serialization of the absolute URL that `url::Url::parse` reads from
/// `s`, or `None` when it rejects `s`.
pub uninterp spec fn url_serialization(s: Seq<char>) -> Option<Seq<char>>;

/// Relies on `url::Url::parse` (absolute URLs only) and on `String::from(Url)`,
/// which hands back the parsed URL's serialization.
#[verifier::external_body]
pub(crate) fn parse_url(s: &str) -> (r: Result<String, url::ParseError>)
    ensures
        r is Ok <==> url_serialization(s@) is Some,
        r matches Ok(t) ==> url_serialization(s@) == Some(t@),
{
    url::Url::parse(s).map(String::from)
}

} // verus!
