//! Discovers the upstream source repositories of software dependencies and
//! aggregates a weighted support list from them.
//!
//! The verified core covers URL canonicalization with forge-specific rules,
//! the per-dependency resolution workflow, per-host rate-limiter bookkeeping,
//! the advisory persistent cache protocol, and the merge/override semantics
//! that combine several scan results into one weighted configuration.

pub mod args;
pub mod cache;
pub mod canon;
pub mod flowextra;
pub mod golang;
pub mod java;
pub mod javascript;
pub mod limiter;
pub mod os_arch;
pub mod os_debian;
pub mod python;
pub mod rust;
pub mod strutil;
pub mod unit;
pub mod urlparse;
pub mod weights;

use vstd::prelude::*;

verus! {

/// Weight given to a newly inserted entry when the scan found no explicit one.
pub const DEFAULT_WEIGHT: u32 = 100;

} // verus!
