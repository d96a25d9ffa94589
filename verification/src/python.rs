//! The Python dependency workflow: skipping the interpreter pseudo-package
//! and naming the package-index endpoint whose metadata carries the
//! candidate project URLs.

use vstd::prelude::*;

use crate::cache::{cache_key, scoped_key};
use crate::strutil::{chars_eq_str, extend_chars, from_chars, to_chars};

verus! {

/// The package-index metadata endpoint for a package.
pub open spec fn pypi_api_endpoint(dep: Seq<char>) -> Seq<char> {
    "https://pypi.org/pypi/"@ + dep + "/json"@
}

/// Builds the package-index metadata URL for a package.
pub fn pypi_api_url(dep: &String) -> (r: String)
    ensures
        r@ == pypi_api_endpoint(dep@),
{
    let mut out = to_chars("https://pypi.org/pypi/");
    let depc = to_chars(dep.as_str());
    extend_chars(&mut out, &depc);
    let tail = to_chars("/json");
    extend_chars(&mut out, &tail);
    assert(out@ =~= pypi_api_endpoint(dep@));
    from_chars(&out)
}

/// What one declared Python dependency asks of its resolution unit.
pub enum PythonDepPlan {
    /// The interpreter itself is declared like a dependency; it resolves to
    /// nothing.
    Skip,
    /// Look the package up on the index, memoized under the cache key.
    LookupPackage { cache_key: String, api_url: String },
}

/// Classifies one Python dependency: `python` is skipped, everything else is
/// looked up on the package index.
pub fn python_dep_plan(dep: &String) -> (r: PythonDepPlan)
    ensures
        dep@ == "python"@ ==> r is Skip,
        dep@ != "python"@ ==> (r matches PythonDepPlan::LookupPackage { cache_key: k, api_url: u }
            && k@ == scoped_key("python"@, dep@) && u@ == pypi_api_endpoint(dep@)),
{
    let depc = to_chars(dep.as_str());
    if chars_eq_str(&depc, "python") {
        PythonDepPlan::Skip
    } else {
        let key = cache_key("python", dep.as_str());
        let api = pypi_api_url(dep);
        PythonDepPlan::LookupPackage { cache_key: key, api_url: api }
    }
}

} // verus!
