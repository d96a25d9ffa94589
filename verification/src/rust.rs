//! The Cargo dependency workflow: classifying one declared dependency and
//! naming the crate-registry endpoint that carries its repository field.

use vstd::prelude::*;

use crate::cache::{cache_key, scoped_key};
use crate::strutil::{extend_chars, from_chars, to_chars};

verus! {

/// The registry metadata endpoint for a crate.
pub open spec fn crates_api_endpoint(id: Seq<char>) -> Seq<char> {
    "https://crates.io/api/v1/crates/"@ + id
}

/// Builds the registry metadata URL for a crate.
pub fn crates_api_url(id: &String) -> (r: String)
    ensures
        r@ == crates_api_endpoint(id@),
{
    let mut out = to_chars("https://crates.io/api/v1/crates/");
    let idc = to_chars(id.as_str());
    extend_chars(&mut out, &idc);
    assert(out@ =~= crates_api_endpoint(id@));
    from_chars(&out)
}

/// What one declared Cargo dependency asks of its resolution unit.
pub enum RustDepPlan {
    /// The manifest named a git URL: record it directly.
    RecordGit(String),
    /// A path dependency: no network, the referenced manifest is scanned
    /// recursively instead.
    LocalPath,
    /// Look the crate up on the registry, memoized under the cache key.
    LookupCrate { cache_key: String, api_url: String },
}

/// Classifies one Cargo dependency: an explicit git URL is recorded as it
/// stands, a path dependency resolves locally, and anything else is looked
/// up under the name the registry knows — the `package` rename when one is
/// given, the dependency key otherwise.
pub fn rust_dep_plan(id: String, git: Option<String>, is_path: bool, package: Option<String>) -> (r:
    RustDepPlan)
    ensures
        git matches Some(g) ==> (r matches RustDepPlan::RecordGit(x) && x@ == g@),
        git is None && is_path ==> r is LocalPath,
        git is None && !is_path ==> (r matches RustDepPlan::LookupCrate { cache_key: k, api_url: u }
            && ({
            let eff = match package {
                Some(p) => p@,
                None => id@,
            };
            k@ == scoped_key("rust"@, eff) && u@ == crates_api_endpoint(eff)
        })),
{
    match git {
        Some(g) => RustDepPlan::RecordGit(g),
        None => {
            if is_path {
                RustDepPlan::LocalPath
            } else {
                let eff: String = match package {
                    Some(p) => p,
                    None => id,
                };
                let key = cache_key("rust", eff.as_str());
                let api = crates_api_url(&eff);
                RustDepPlan::LookupCrate { cache_key: key, api_url: api }
            }
        },
    }
}

} // verus!
