use bread_scan::cache::{
    cache_key, decode_opt_string, decode_string_list, encode_opt_string, encode_string_list,
    Cache,
};

fn temp_cache() -> (tempfile::TempDir, Cache) {
    let dir = tempfile::tempdir().unwrap();
    let cache = Cache::new(dir.path().to_string_lossy().to_string());
    (dir, cache)
}

#[test]
fn cache_round_trip() {
    let (_dir, cache) = temp_cache();
    cache.cache_put(&"k".to_string(), &"v".to_string());
    assert_eq!(cache.cache_get(&"k".to_string()), Some("v".to_string()));
}

#[test]
fn cache_miss_returns_nothing() {
    let (_dir, cache) = temp_cache();
    assert_eq!(cache.cache_get(&"unknown".to_string()), None);
}

#[test]
fn cache_overwrite_returns_latest() {
    let (_dir, cache) = temp_cache();
    cache.cache_put(&"k".to_string(), &"one".to_string());
    cache.cache_put(&"k".to_string(), &"two".to_string());
    assert_eq!(cache.cache_get(&"k".to_string()), Some("two".to_string()));
}

#[test]
fn corrupt_entry_reads_as_miss() {
    let (dir, cache) = temp_cache();
    // A blob that is not valid UTF-8 must read as "no value", never an error.
    cacache::write_sync(dir.path(), "bad", [0xffu8, 0xfe, 0x00, 0x80]).unwrap();
    assert_eq!(cache.cache_get(&"bad".to_string()), None);
}

#[test]
fn corrupt_typed_payload_reads_as_miss() {
    let (_dir, cache) = temp_cache();
    cache.cache_put(&"k".to_string(), &"not json at all".to_string());
    let raw = cache.cache_get(&"k".to_string()).unwrap();
    assert_eq!(decode_string_list(&raw), None);
}

#[test]
fn string_list_round_trip() {
    let items = vec!["https://a".to_string(), "b \"quoted\"".to_string()];
    let enc = encode_string_list(&items);
    assert_eq!(decode_string_list(&enc), Some(items));
    assert_eq!(decode_string_list("["), None);
}

#[test]
fn opt_string_round_trip() {
    let some = Some("hello".to_string());
    assert_eq!(decode_opt_string(&encode_opt_string(&some)), Some(some));
    let none: Option<String> = None;
    assert_eq!(decode_opt_string(&encode_opt_string(&none)), Some(None));
    assert_eq!(decode_opt_string("{"), None);
}

#[test]
fn cache_keys_are_namespace_scoped() {
    assert_eq!(cache_key("rust", "serde"), "rust-serde".to_string());
    assert_eq!(
        cache_key("canonical", "https://example.com/p"),
        "canonical-https://example.com/p".to_string()
    );
    assert_eq!(cache_key("arch-html", "u"), "arch-html-u".to_string());
}

#[test]
fn typed_round_trip_through_cache() {
    let (_dir, cache) = temp_cache();
    let items = vec!["one".to_string(), "two".to_string()];
    cache.cache_put(&"list".to_string(), &encode_string_list(&items));
    let back = cache.cache_get(&"list".to_string()).unwrap();
    assert_eq!(decode_string_list(&back), Some(items));
}
