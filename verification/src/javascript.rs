//! The npm dependency workflow: locating a dependency's manifest below
//! `node_modules`, and turning the manifest's repository URL — often a
//! `.git` address — into a candidate project URL.

use vstd::prelude::*;

use crate::strutil::{extend_chars, from_chars, rfind, rfind_chars, sub_chars, to_chars};
use crate::urlparse::{parse_url, url_split};

verus! {

/// The manifest location of an installed dependency, relative to the scan
/// root.
pub open spec fn npm_manifest_rel(dep: Seq<char>) -> Seq<char> {
    "node_modules/"@ + dep + "/package.json"@
}

/// Builds the relative manifest path of an installed dependency.
pub fn npm_manifest_path(dep: &String) -> (r: String)
    ensures
        r@ == npm_manifest_rel(dep@),
{
    let mut out = to_chars("node_modules/");
    let depc = to_chars(dep.as_str());
    extend_chars(&mut out, &depc);
    let tail = to_chars("/package.json");
    extend_chars(&mut out, &tail);
    assert(out@ =~= npm_manifest_rel(dep@));
    from_chars(&out)
}

/// The candidate project URL a manifest's repository URL denotes: its host
/// over https, with the path cut at the last `.git`.
pub open spec fn npm_candidate_of(host: Seq<char>, path: Seq<char>) -> Seq<char> {
    "https://"@ + host + (match rfind(path, ".git"@) {
        Some(i) => path.subrange(0, i),
        None => path,
    })
}

/// Turns a manifest's repository URL into a candidate project URL; a URL
/// that does not parse yields nothing.
pub fn npm_repo_candidate(repo_url: &String) -> (r: Option<String>)
    ensures
        r is Some <==> url_split(repo_url@) is Some,
        r matches Some(c) ==> (url_split(repo_url@) matches Some(t) && c@ == npm_candidate_of(
            t.1,
            t.3,
        )),
{
    match parse_url(repo_url.as_str()) {
        None => None,
        Some(parts) => {
            let host = to_chars(parts.host.as_str());
            let path = to_chars(parts.path.as_str());
            let pat = to_chars(".git");
            proof {
                reveal_strlit(".git");
            }
            let cut = match rfind_chars(&path, &pat) {
                Some(i) => sub_chars(&path, 0, i),
                None => sub_chars(&path, 0, path.len()),
            };
            let mut out = to_chars("https://");
            extend_chars(&mut out, &host);
            extend_chars(&mut out, &cut);
            assert(path@.subrange(0, path@.len() as int) =~= path@);
            assert(out@ =~= npm_candidate_of(parts.host@, parts.path@));
            Some(from_chars(&out))
        },
    }
}

} // verus!
