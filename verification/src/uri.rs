//! A thin, trusted view of hyper's URI parser. Parsing a URI and reading its
//! parts are functions of the input text alone, so the parts are named by
//! uninterpreted functions and everything built on them is verified against
//! those names.

use vstd::prelude::*;

verus! {

/// The parts of a parsed URI, as plain text.
pub struct UriParts {
    /// The scheme, e.g. `http`, when present.
    pub scheme: Option<String>,
    /// The authority (host, optional user info and port), when present.
    pub authority: Option<String>,
    /// The host part of the authority, when an authority is present.
    pub host: Option<String>,
    /// The path and query, when present.
    pub path_and_query: Option<String>,
}

/// Whether `s` parses as a URI.
pub uninterp spec fn spec_uri_ok(s: Seq<char>) -> bool;

/// The scheme of the URI parsed from `s`.
pub uninterp spec fn spec_uri_scheme(s: Seq<char>) -> Option<Seq<char>>;

/// The authority of the URI parsed from `s`.
pub uninterp spec fn spec_uri_authority(s: Seq<char>) -> Option<Seq<char>>;

/// The path-and-query of the URI parsed from `s`.
pub uninterp spec fn spec_uri_path_query(s: Seq<char>) -> Option<Seq<char>>;

/// The host part of an authority text.
pub uninterp spec fn spec_authority_host(a: Seq<char>) -> Seq<char>;

/// The view of an optional string.
pub open spec fn opt_view(o: Option<String>) -> Option<Seq<char>> {
    match o {
        Option::Some(s) => Option::Some(s@),
        Option::None => Option::None,
    }
}

/// Relies on hyper's `Uri` parser (the `http` crate): whether parsing
/// succeeds, and each part of the result, depends on the input text alone;
/// `Authority::host` is likewise a function of the authority text.
#[verifier::external_body]
pub(crate) fn parse_uri(s: &str) -> (r: Option<UriParts>)
    ensures
        (r is Some) == spec_uri_ok(s@),
        r matches Some(u) ==> {
            &&& opt_view(u.scheme) == spec_uri_scheme(s@)
            &&& opt_view(u.authority) == spec_uri_authority(s@)
            &&& opt_view(u.path_and_query) == spec_uri_path_query(s@)
            &&& (u.host is Some) == (u.authority is Some)
            &&& (u.authority matches Some(a) ==> u.host matches Some(h) && h@
                == spec_authority_host(a@))
        },
{
    let p = match s.parse::<hyper::Uri>() {
        Err(_) => return None,
        Ok(u) => u.into_parts(),
    };
    Some(
        UriParts {
            scheme: p.scheme.as_ref().map(|x| x.as_str().to_string()),
            authority: p.authority.as_ref().map(|a| a.as_str().to_string()),
            host: p.authority.as_ref().map(|a| a.host().to_string()),
            path_and_query: p.path_and_query.as_ref().map(|q| q.as_str().to_string()),
        },
    )
}

} // verus!
