//! What the `url` crate computes of a URL text, and the proxy-URL repair built on it.

use vstd::prelude::*;
use crate::text::{append_str, copy_str};

verus! {

/// Whether `url::Url::parse` accepts a text.
pub uninterp spec fn url_parses(text: Seq<char>) -> bool;

/// The decoded `(key, value)` pairs of `Url::query_pairs` of a parsed URL.
pub uninterp spec fn url_query_pairs(text: Seq<char>) -> Seq<(Seq<char>, Seq<char>)>;

/// The serialisation of a parsed URL after `Url::set_query(None)`.
pub uninterp spec fn url_without_query(text: Seq<char>) -> Seq<char>;

/// `Url::scheme` of a parsed URL.
pub uninterp spec fn url_scheme(text: Seq<char>) -> Seq<char>;

/// `Url::host_str` of a parsed URL.
pub uninterp spec fn url_host(text: Seq<char>) -> Option<Seq<char>>;

/// The last of `Url::path_segments` of a parsed URL, if it has a segmented path.
pub uninterp spec fn url_last_segment(text: Seq<char>) -> Option<Seq<char>>;

pub open spec fn pairs_view(v: Seq<(String, String)>) -> Seq<(Seq<char>, Seq<char>)> {
    v.map_values(|p: (String, String)| (p.0@, p.1@))
}

/// Calls `url::Url::parse` and reports whether it succeeded.
#[verifier::external_body]
pub(crate) fn parses_as_url(text: &str) -> (r: bool)
    ensures
        r == url_parses(text@),
{
    url::Url::parse(text).is_ok()
}

/// Calls `Url::parse`, then `Url::query_pairs`, owning the decoded pairs.
///
/// Claims `None` exactly when the text does not parse, and otherwise the named pairs.
#[verifier::external_body]
pub(crate) fn query_pairs_of(text: &str) -> (r: Option<Vec<(String, String)>>)
    ensures
        r is Some == url_parses(text@),
        r matches Some(v) ==> pairs_view(v@) == url_query_pairs(text@),
{
    url::Url::parse(text).ok().map(|u| u.query_pairs().map(|(k, v)| (k.into_owned(), v.into_owned())).collect())
}

/// Calls `Url::parse`, then `Url::set_query(None)`, and serialises the URL.
///
/// Claims `None` exactly when the text does not parse, and otherwise the named serialisation.
#[verifier::external_body]
pub(crate) fn without_query(text: &str) -> (r: Option<String>)
    ensures
        r is Some == url_parses(text@),
        r matches Some(s) ==> s@ == url_without_query(text@),
{
    url::Url::parse(text).ok().map(|mut u| {
        u.set_query(None);
        u.into()
    })
}

/// Calls `Url::parse`, then `Url::scheme`.
///
/// Claims `None` exactly when the text does not parse, and otherwise the named scheme.
#[verifier::external_body]
pub(crate) fn scheme_of(text: &str) -> (r: Option<String>)
    ensures
        r is Some == url_parses(text@),
        r matches Some(s) ==> s@ == url_scheme(text@),
{
    url::Url::parse(text).ok().map(|u| u.scheme().to_string())
}

/// Calls `Url::parse`, then `Url::host_str`.
///
/// Claims `None` exactly when the text does not parse, and otherwise the named host.
#[verifier::external_body]
pub(crate) fn host_of(text: &str) -> (r: Option<Option<String>>)
    ensures
        r is Some == url_parses(text@),
        r matches Some(h) ==> match h {
            Some(s) => url_host(text@) == Some(s@),
            None => url_host(text@) is None,
        },
{
    url::Url::parse(text).ok().map(|u| u.host_str().map(|h| h.to_string()))
}

/// Calls `Url::parse`, then the last of `Url::path_segments`.
///
/// Claims `None` exactly when the text does not parse, and otherwise the named segment.
#[verifier::external_body]
pub(crate) fn last_segment_of(text: &str) -> (r: Option<Option<String>>)
    ensures
        r is Some == url_parses(text@),
        r matches Some(h) ==> match h {
            Some(s) => url_last_segment(text@) == Some(s@),
            None => url_last_segment(text@) is None,
        },
{
    url::Url::parse(text).ok().map(|u| u.path_segments().and_then(|mut s| s.next_back()).map(|s| s.to_string()))
}

/// The proxy URL handed to git: `proxy` itself, unless it is not a URL while the repository URL
/// is one and `SCHEME://proxy` (with the repository's scheme) is.
pub open spec fn proxy_url_spec(repo_url: Seq<char>, proxy: Seq<char>) -> Seq<char> {
    let repl = url_scheme(repo_url) + seq![':', '/', '/'] + proxy;
    if !url_parses(proxy) && url_parses(repo_url) && url_parses(repl) {
        repl
    } else {
        proxy
    }
}

/// Cargo allows `[protocol://]host[:port]` for proxies, but git needs the protocol: add the
/// repository's when it is missing.
pub fn proxy_url_for(repo_url: &str, proxy_url: &str) -> (r: String)
    ensures
        r@ == proxy_url_spec(repo_url@, proxy_url@),
{
    if !parses_as_url(proxy_url) {
        if let Some(scheme) = scheme_of(repo_url) {
            let mut repl = scheme;
            append_str(&mut repl, "://");
            append_str(&mut repl, proxy_url);
            proof {
                reveal_strlit("://");
            }
            assert(repl@ =~= url_scheme(repo_url@) + seq![':', '/', '/'] + proxy_url@);
            if parses_as_url(repl.as_str()) {
                return repl;
            }
        }
    }
    copy_str(proxy_url)
}

} // verus!
