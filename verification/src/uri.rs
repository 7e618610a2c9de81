//! What the `hyper` crate's URI parser says of a text.
use vstd::prelude::*;

verus! {

/// Whether `hyper::Uri` accepts the text.
pub uninterp spec fn uri_parses(s: Seq<char>) -> bool;

/// The path `hyper::Uri::path` gives for the text.
pub uninterp spec fn uri_path(s: Seq<char>) -> Seq<char>;

/// The host `hyper::Uri::host` gives for the text.
pub uninterp spec fn uri_host(s: Seq<char>) -> Option<Seq<char>>;

/// The scheme `hyper::Uri::scheme_str` gives for the text.
pub uninterp spec fn uri_scheme(s: Seq<char>) -> Option<Seq<char>>;

/// The path and query `hyper::Uri::path_and_query` gives for the text.
pub uninterp spec fn uri_path_query(s: Seq<char>) -> Option<Seq<char>>;

/// The authority `hyper::Uri::authority` gives for the text.
pub uninterp spec fn uri_authority(s: Seq<char>) -> Option<Seq<char>>;

/// The text `hyper::Uri` displays for the text it reads.
pub uninterp spec fn uri_text(s: Seq<char>) -> Seq<char>;

/// The text of the URI that `hyper::Uri::builder` builds from a scheme, an
/// authority and a path with query, when it accepts them.
pub uninterp spec fn uri_built(scheme: Seq<char>, authority: Seq<char>, path_query: Seq<char>) -> Option<Seq<char>>;

/// Whether `hyper::Uri` accepts `s`.
///
/// Trusted: parses `s` with `<hyper::Uri as FromStr>::from_str` and tells
/// whether it succeeded; the parse depends on the text alone.
#[verifier::external_body]
pub(crate) fn uri_is_valid(s: &str) -> (res: bool)
    ensures
        res == uri_parses(s@),
{
    s.parse::<hyper::Uri>().is_ok()
}

/// The path of the URI `s`, if `hyper::Uri` accepts it.
///
/// Trusted: parses `s` with `hyper::Uri::from_str` and returns
/// `hyper::Uri::path` of the result; both depend on the text alone.
#[verifier::external_body]
pub(crate) fn uri_path_of(s: &str) -> (res: Option<String>)
    ensures
        res is Some == uri_parses(s@),
        res matches Some(p) ==> p@ == uri_path(s@),
{
    match s.parse::<hyper::Uri>() {
        Ok(u) => Some(u.path().to_string()),
        Err(_) => None,
    }
}

/// The host of the URI `s`, if `hyper::Uri` accepts it.
///
/// Trusted: parses `s` with `hyper::Uri::from_str` and returns
/// `hyper::Uri::host` of the result; both depend on the text alone.
#[verifier::external_body]
pub(crate) fn uri_host_of(s: &str) -> (res: Option<Option<String>>)
    ensures
        res is Some == uri_parses(s@),
        res matches Some(h) ==> (match uri_host(s@) {
            Some(x) => h matches Some(y) && y@ == x,
            None => h is None,
        }),
{
    match s.parse::<hyper::Uri>() {
        Ok(u) => match u.host() {
            Some(h) => Some(Some(h.to_string())),
            None => Some(None),
        },
        Err(_) => None,
    }
}

/// The scheme of the URI `s`, if `hyper::Uri` accepts it.
///
/// Trusted: parses `s` with `hyper::Uri::from_str` and returns
/// `hyper::Uri::scheme_str` of the result; both depend on the text alone.
#[verifier::external_body]
pub(crate) fn uri_scheme_of(s: &str) -> (res: Option<Option<String>>)
    ensures
        res is Some == uri_parses(s@),
        res matches Some(h) ==> (match uri_scheme(s@) {
            Some(x) => h matches Some(y) && y@ == x,
            None => h is None,
        }),
{
    match s.parse::<hyper::Uri>() {
        Ok(u) => match u.scheme_str() {
            Some(h) => Some(Some(h.to_string())),
            None => Some(None),
        },
        Err(_) => None,
    }
}

/// The path and query of the URI `s`, if `hyper::Uri` accepts it.
///
/// Trusted: parses `s` with `hyper::Uri::from_str` and returns
/// `hyper::Uri::path_and_query` of the result as text; both depend on the
/// text alone.
#[verifier::external_body]
pub(crate) fn uri_path_query_of(s: &str) -> (res: Option<Option<String>>)
    ensures
        res is Some == uri_parses(s@),
        res matches Some(h) ==> (match uri_path_query(s@) {
            Some(x) => h matches Some(y) && y@ == x,
            None => h is None,
        }),
{
    match s.parse::<hyper::Uri>() {
        Ok(u) => match u.path_and_query() {
            Some(pq) => Some(Some(pq.as_str().to_string())),
            None => Some(None),
        },
        Err(_) => None,
    }
}

/// The authority of the URI `s`, if `hyper::Uri` accepts it.
///
/// Trusted: parses `s` with `hyper::Uri::from_str` and returns
/// `hyper::Uri::authority` of the result as text; both depend on the text
/// alone.
#[verifier::external_body]
pub(crate) fn uri_authority_of(s: &str) -> (res: Option<Option<String>>)
    ensures
        res is Some == uri_parses(s@),
        res matches Some(h) ==> (match uri_authority(s@) {
            Some(x) => h matches Some(y) && y@ == x,
            None => h is None,
        }),
{
    match s.parse::<hyper::Uri>() {
        Ok(u) => match u.authority() {
            Some(a) => Some(Some(a.as_str().to_string())),
            None => Some(None),
        },
        Err(_) => None,
    }
}

/// The URI built from `scheme`, `authority` and `path_query`, as text.
///
/// Trusted: calls `hyper::Uri::builder` with the three parts and `build`,
/// and returns the text of the result; it depends on the parts alone.
#[verifier::external_body]
pub(crate) fn uri_build(scheme: &str, authority: &str, path_query: &str) -> (res: Option<String>)
    ensures
        match uri_built(scheme@, authority@, path_query@) {
            Some(x) => res matches Some(y) && y@ == x,
            None => res is None,
        },
{
    match hyper::Uri::builder().scheme(scheme).authority(authority).path_and_query(path_query).build() {
        Ok(u) => Some(u.to_string()),
        Err(_) => None,
    }
}

/// The text `hyper::Uri` displays for `s`, if it accepts `s`.
///
/// Trusted: parses `s` with `<hyper::Uri as FromStr>::from_str` and writes
/// the result with `to_string`; both depend on the text alone.
#[verifier::external_body]
pub(crate) fn uri_text_of(s: &str) -> (res: Option<String>)
    ensures
        res is Some == uri_parses(s@),
        res matches Some(t) ==> t@ == uri_text(s@),
{
    match s.parse::<hyper::Uri>() {
        Ok(u) => Some(u.to_string()),
        Err(_) => None,
    }
}

} // verus!
