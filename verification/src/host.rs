//! Host extraction for request URLs, delegated to the `url` crate.

use vstd::prelude::*;

verus! {

/// The host component of a URL text, when the text parses as an absolute
/// URL that has one. A function of the URL text alone.
pub uninterp spec fn host_of(url: Seq<u8>) -> Option<Seq<u8>>;

/// Relies on url::Url::parse and url::Url::host_str: parsing a URL and
/// reading its host depend on the URL text alone; text that is not UTF-8,
/// does not parse as an absolute URL, or parses without a host yields
/// nothing.
#[verifier::external_body]
pub(crate) fn parse_host(url: &[u8]) -> (r: Option<Vec<u8>>)
    ensures
        r matches Some(h) ==> host_of(url@) == Some(h@),
        r is None ==> host_of(url@) is None,
{
    match core::str::from_utf8(url) {
        Ok(s) => match url::Url::parse(s) {
            Ok(u) => u.host_str().map(|h| h.as_bytes().to_vec()),
            Err(_) => None,
        },
        Err(_) => None,
    }
}

} // verus!
