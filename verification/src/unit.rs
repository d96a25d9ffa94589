//! The per-dependency resolution model: one raw dependency reference in, one
//! resolution plan out.  An explicit repository URL is recorded directly, a
//! local path recurses into the referenced manifest, and anything else goes
//! through the ecosystem's registry, memoized under a namespace-scoped key.

use vstd::prelude::*;

use crate::cache::{cache_key, scoped_key};

verus! {

/// The ecosystem a raw dependency reference came from.
#[derive(Clone, Copy, PartialEq, Eq, Structural, Debug)]
pub enum Ecosystem {
    Rust,
    Python,
    Node,
    Maven,
    Go,
    Debian,
    Arch,
}

/// The cache namespace that scopes an ecosystem's registry lookups.
pub open spec fn namespace_of(e: Ecosystem) -> Seq<char> {
    match e {
        Ecosystem::Rust => "rust"@,
        Ecosystem::Python => "python"@,
        Ecosystem::Node => "node"@,
        Ecosystem::Maven => "maven"@,
        Ecosystem::Go => "go"@,
        Ecosystem::Debian => "debian"@,
        Ecosystem::Arch => "arch-html"@,
    }
}

/// One raw dependency reference, as an adapter hands it over: an ecosystem
/// tag, an identifier, and optionally an explicit repository URL or a local
/// filesystem path.
pub struct DependencyReference {
    pub ecosystem: Ecosystem,
    pub identifier: String,
    pub url: Option<String>,
    pub path: Option<String>,
}

/// What a resolution unit must do for one reference.
pub enum ResolutionStep {
    /// Record the explicit URL, with no network call and no cache.
    RecordDirect(String),
    /// Recurse into the manifest at the local path, off the network.
    RecurseLocal(String),
    /// Look the identifier up, memoized under the given cache key.
    Lookup(String),
}

/// The resolution plan for one reference: an explicit URL wins, then a local
/// path, then a registry lookup scoped to the ecosystem.
pub fn resolve_plan(d: DependencyReference) -> (r: ResolutionStep)
    ensures
        d.url matches Some(u) ==> (r matches ResolutionStep::RecordDirect(x) && x@ == u@),
        d.url is None && d.path is Some ==> (r matches ResolutionStep::RecurseLocal(x) && (
        d.path matches Some(p) && x@ == p@)),
        d.url is None && d.path is None ==> (r matches ResolutionStep::Lookup(k) && k@
            == scoped_key(namespace_of(d.ecosystem), d.identifier@)),
{
    match d.url {
        Some(u) => ResolutionStep::RecordDirect(u),
        None => match d.path {
            Some(p) => ResolutionStep::RecurseLocal(p),
            None => {
                let ns: &str = match d.ecosystem {
                    Ecosystem::Rust => "rust",
                    Ecosystem::Python => "python",
                    Ecosystem::Node => "node",
                    Ecosystem::Maven => "maven",
                    Ecosystem::Go => "go",
                    Ecosystem::Debian => "debian",
                    Ecosystem::Arch => "arch-html",
                };
                ResolutionStep::Lookup(cache_key(ns, d.identifier.as_str()))
            },
        },
    }
}

} // verus!
