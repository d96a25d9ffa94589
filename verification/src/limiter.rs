//! Per-destination-host rate limiting: the table of token-bucket limiters,
//! one per host, created lazily with the fixed quota and shared for the rest
//! of the process lifetime.  The limiters themselves come from `governor`;
//! declaring `governor::RateLimiter` to the verifier fails on its trait
//! bounds, so one opaque struct holds the shared handle instead.

use vstd::prelude::*;

use crate::urlparse::{parse_url, url_split};
use crate::weights::StrMap;

verus! {

/// Sustained request quota per destination host, in requests per second.
pub const RATE_LIMIT_PER_SECOND: u32 = 5;

/// Upper bound of the random jitter added to each limiter wait, in
/// milliseconds, to desynchronize concurrent callers.
pub const JITTER_MS: u64 = 500;

/// One shared token-bucket limiter of `governor` for a single host, opaque
/// to the verifier.  Waiting for a token happens outside the library, by
/// polling `check_ready`.
#[verifier::external_body]
pub struct HostLimiter {
    inner: std::sync::Arc<
        governor::RateLimiter<
            governor::state::NotKeyed,
            governor::state::InMemoryState,
            governor::clock::QuantaClock,
            governor::middleware::NoOpMiddleware<governor::clock::QuantaInstant>,
        >,
    >,
}

impl HostLimiter {
    /// Relies on `governor::RateLimiter::direct` and
    /// `governor::Quota::per_second`: a fresh in-memory limiter that
    /// sustains `per_second` requests per second.
    #[verifier::external_body]
    fn with_quota(per_second: u32) -> HostLimiter
        requires
            per_second >= 1,
    {
        HostLimiter {
            inner: std::sync::Arc::new(
                governor::RateLimiter::direct(
                    governor::Quota::per_second(core::num::NonZeroU32::new(per_second).unwrap()),
                ),
            ),
        }
    }

    /// Relies on `Arc::clone`: the shared handle refers to the same limiter.
    #[verifier::external_body]
    pub fn share(&self) -> (r: HostLimiter)
        ensures
            r == *self,
    {
        HostLimiter { inner: std::sync::Arc::clone(&self.inner) }
    }

    /// Relies on `governor::RateLimiter::check`: true exactly when the
    /// limiter lets one more request through right now.  The answer depends
    /// on the clock and on every sharer's earlier calls, so nothing is
    /// claimed of it.
    #[verifier::external_body]
    pub fn check_ready(&self) -> bool {
        self.inner.check().is_ok()
    }
}

/// The table of per-host limiters: one limiter per destination host, created
/// on first access and reused by every later caller for that host.
pub struct LimiterTable {
    pub limiters: StrMap<HostLimiter>,
}

impl LimiterTable {
    /// The table keeps one entry per host.
    pub open spec fn wf(&self) -> bool {
        self.limiters.wf()
    }

    /// An empty table.
    pub fn new() -> (r: LimiterTable)
        ensures
            r.wf(),
            r.limiters@ == Map::<Seq<char>, HostLimiter>::empty(),
    {
        LimiterTable { limiters: StrMap::new() }
    }

    /// The limiter for `host`: the one already in the table, or a fresh one
    /// with the fixed quota, entered under `host` for all later callers.
    pub fn acquire_for_host(&mut self, host: &String) -> (r: HostLimiter)
        requires
            old(self).wf(),
        ensures
            final(self).wf(),
            final(self).limiters@.dom().contains(host@),
            r == final(self).limiters@[host@],
            old(self).limiters@.dom().contains(host@) ==> final(self).limiters == old(
                self,
            ).limiters && r == old(self).limiters@[host@],
            !old(self).limiters@.dom().contains(host@) ==> final(self).limiters@ == old(
                self,
            ).limiters@.insert(host@, r),
    {
        let existing = match self.limiters.get(host) {
            Some(l) => Some(l.share()),
            None => None,
        };
        match existing {
            Some(l) => l,
            None => {
                let l = HostLimiter::with_quota(RATE_LIMIT_PER_SECOND);
                let shared = l.share();
                self.limiters.insert(host.clone(), l);
                shared
            },
        }
    }
}

/// The error for a request whose URL cannot be parsed at all: it fails
/// before any limiter is touched.
pub enum FetchError {
    InvalidUrl,
}

/// The per-host key under which a request to `url` must be throttled; an
/// unparseable URL is rejected immediately, a URL without a host throttles
/// under the empty host.
pub fn fetch_host(url: &String) -> (r: Result<String, FetchError>)
    ensures
        r is Ok <==> url_split(url@) is Some,
        r matches Ok(h) ==> url_split(url@) matches Some(t) && h@ == t.1,
{
    match parse_url(url.as_str()) {
        Some(parts) => Ok(parts.host),
        None => Err(FetchError::InvalidUrl),
    }
}

} // verus!
