//! URL decomposition, behind a trusted boundary around the `url` crate.

use vstd::prelude::*;

verus! {

/// The components of a parsed URL that the resolution logic reads: the
/// scheme, the host (empty when the URL has none), the explicit port, and
/// the path with query and fragment already stripped.
pub struct UrlParts {
    pub scheme: String,
    pub host: String,
    pub port: Option<u16>,
    pub path: String,
}

/// What `url::Url::parse` yields for a given input: scheme, host, port and
/// path, or nothing when the input does not parse.  A function of the input
/// string alone.
pub uninterp spec fn url_split(s: Seq<char>) -> Option<(Seq<char>, Seq<char>, Option<u16>, Seq<char>)>;

/// Relies on `url::Url::parse`: the parsed scheme, host, port and path
/// depend on the input string alone, and parsing fails exactly when the
/// input is not a valid URL.  The path never carries a query or fragment,
/// and a URL without a host is given the empty host.
#[verifier::external_body]
pub fn parse_url(s: &str) -> (r: Option<UrlParts>)
    ensures
        r is Some <==> url_split(s@) is Some,
        r matches Some(p) ==> url_split(s@) == Some((p.scheme@, p.host@, p.port, p.path@)),
{
    match url::Url::parse(s) {
        Ok(u) => Some(
            UrlParts {
                scheme: u.scheme().to_string(),
                host: match u.host_str() {
                    Some(h) => h.to_string(),
                    None => String::new(),
                },
                port: u.port(),
                path: u.path().to_string(),
            },
        ),
        Err(_) => None,
    }
}

} // verus!
