use std::time::Instant;

use bread_scan::limiter::{fetch_host, FetchError, LimiterTable, JITTER_MS, RATE_LIMIT_PER_SECOND};

#[test]
fn twenty_requests_are_throttled() {
    // At 5 requests per second with a burst of 5, 20 requests cannot finish
    // before the bucket refills 15 times, i.e. in under ~3 wall-clock
    // seconds.
    let mut table = LimiterTable::new();
    let limiter = table.acquire_for_host(&"example.com".to_string());
    let start = Instant::now();
    let mut done: u32 = 0;
    while done < 20 {
        if limiter.check_ready() {
            done += 1;
        }
    }
    let elapsed = start.elapsed();
    assert!(
        elapsed.as_millis() >= 2900,
        "20 requests finished too fast: {:?}",
        elapsed
    );
}

#[test]
fn limiter_is_shared_per_host() {
    let mut table = LimiterTable::new();
    let first = table.acquire_for_host(&"shared.example".to_string());
    // Drain the burst through the first handle.
    let mut drained: u32 = 0;
    while first.check_ready() {
        drained += 1;
        assert!(drained <= RATE_LIMIT_PER_SECOND + 1);
    }
    // A second acquisition for the same host sees the drained bucket.
    let second = table.acquire_for_host(&"shared.example".to_string());
    assert!(!second.check_ready());
    // A different host gets a fresh limiter.
    let other = table.acquire_for_host(&"other.example".to_string());
    assert!(other.check_ready());
}

#[test]
fn fetch_host_extracts_throttle_key() {
    match fetch_host(&"https://crates.io/api/v1/crates/serde".to_string()) {
        Ok(h) => assert_eq!(h, "crates.io".to_string()),
        Err(_) => panic!("expected a host"),
    }
}

#[test]
fn invalid_url_fails_before_the_limiter() {
    match fetch_host(&"::not a url::".to_string()) {
        Ok(_) => panic!("expected InvalidUrl"),
        Err(e) => assert!(matches!(e, FetchError::InvalidUrl)),
    }
}

#[test]
fn quota_constants() {
    assert_eq!(RATE_LIMIT_PER_SECOND, 5);
    assert_eq!(JITTER_MS, 500);
}
