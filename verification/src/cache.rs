//! The durable, advisory cache: disk-backed memoization through `cacache`.
//! A miss, a not-found condition and a corrupt entry are indistinguishable to
//! callers — all read as "no value" — and a failed write is swallowed, so
//! caching can never fail a resolution.

use vstd::prelude::*;

use crate::strutil::{extend_chars, from_chars, to_chars};

verus! {

/// A handle on the on-disk key/value store: the directory that holds it.
pub struct Cache {
    pub dir: String,
}

/// Relies on `cacache::read_sync`: reads the blob last written under `key`
/// below `dir`.  What comes back depends on the disk, so nothing is claimed
/// of the value; any error reads as `None`.
#[verifier::external_body]
fn cache_read_raw(dir: &str, key: &str) -> Option<Vec<u8>> {
    cacache::read_sync(dir, key).ok()
}

/// Relies on `cacache::write_sync`: stores `value` under `key` below `dir`.
/// A failed write is dropped.
#[verifier::external_body]
fn cache_write_raw(dir: &str, key: &str, value: &str) {
    let _ = cacache::write_sync(dir, key, value.as_bytes());
}

/// Relies on `String::from_utf8`: succeeds exactly on valid UTF-8 and
/// decodes it.
#[verifier::external_body]
fn bytes_to_string(b: Vec<u8>) -> (r: Option<String>)
    ensures
        r is Some <==> vstd::utf8::valid_utf8(b@),
        r matches Some(s) ==> s@ == vstd::utf8::decode_utf8(b@),
{
    String::from_utf8(b).ok()
}

/// The advisory reading of a raw cache result: a valid UTF-8 blob decodes,
/// everything else — absence included — reads as no value, never an error.
pub fn interpret_cache_bytes(raw: Option<Vec<u8>>) -> (r: Option<String>)
    ensures
        match raw {
            Some(b) => if vstd::utf8::valid_utf8(b@) {
                r matches Some(s) && s@ == vstd::utf8::decode_utf8(b@)
            } else {
                r is None
            },
            None => r is None,
        },
{
    match raw {
        Some(b) => bytes_to_string(b),
        None => None,
    }
}

impl Cache {
    /// A cache rooted at the given directory.
    pub fn new(dir: String) -> (r: Cache)
        ensures
            r.dir@ == dir@,
    {
        Cache { dir }
    }

    /// Reads the string stored under `key`: absence, read errors and
    /// non-UTF-8 blobs all return `None`.
    pub fn cache_get(&self, key: &String) -> Option<String> {
        interpret_cache_bytes(cache_read_raw(self.dir.as_str(), key.as_str()))
    }

    /// Stores `value` under `key`; a write failure is swallowed.
    pub fn cache_put(&self, key: &String, value: &String) {
        cache_write_raw(self.dir.as_str(), key.as_str(), value.as_str());
    }
}

/// The namespace-scoped cache key: `<namespace>-<identifier>`.
pub open spec fn scoped_key(namespace: Seq<char>, id: Seq<char>) -> Seq<char> {
    namespace + seq!['-'] + id
}

/// Builds the cache key scoping `id` under `namespace`.
pub fn cache_key(namespace: &str, id: &str) -> (r: String)
    ensures
        r@ == scoped_key(namespace@, id@),
{
    let mut out = to_chars(namespace);
    out.push('-');
    let idc = to_chars(id);
    extend_chars(&mut out, &idc);
    assert(out@ =~= scoped_key(namespace@, id@));
    from_chars(&out)
}

/// The JSON encoding of a list of strings, a function of the items alone.
pub uninterp spec fn json_list_of(items: Seq<Seq<char>>) -> Seq<char>;

/// What a string parses to as a JSON list of strings, a function of the
/// string alone.
pub uninterp spec fn json_list_parsed(s: Seq<char>) -> Option<Seq<Seq<char>>>;

/// Relies on `serde_json::to_string` for `Vec<String>`: the encoding
/// depends on the items alone and parses back to them.
#[verifier::external_body]
pub fn encode_string_list(items: &Vec<String>) -> (r: String)
    ensures
        r@ == json_list_of(items.deep_view()),
        json_list_parsed(r@) == Some(items.deep_view()),
{
    serde_json::to_string(items).unwrap()
}

/// Relies on `serde_json::from_str` for `Vec<String>`: the parse result
/// depends on the string alone; a malformed string parses to nothing.
#[verifier::external_body]
pub fn decode_string_list(s: &str) -> (r: Option<Vec<String>>)
    ensures
        r is Some <==> json_list_parsed(s@) is Some,
        r matches Some(v) ==> json_list_parsed(s@) == Some(v.deep_view()),
{
    serde_json::from_str::<Vec<String>>(s).ok()
}

/// The JSON encoding of an optional string, a function of the value alone.
pub uninterp spec fn json_opt_of(v: Option<Seq<char>>) -> Seq<char>;

/// What a string parses to as a JSON optional string.
pub uninterp spec fn json_opt_parsed(s: Seq<char>) -> Option<Option<Seq<char>>>;

/// Relies on `serde_json::to_string` for `Option<String>`: the encoding
/// depends on the value alone and parses back to it.
#[verifier::external_body]
pub fn encode_opt_string(v: &Option<String>) -> (r: String)
    ensures
        r@ == json_opt_of(v.deep_view()),
        json_opt_parsed(r@) == Some(v.deep_view()),
{
    serde_json::to_string(v).unwrap()
}

/// Relies on `serde_json::from_str` for `Option<String>`: the parse result
/// depends on the string alone.
#[verifier::external_body]
pub fn decode_opt_string(s: &str) -> (r: Option<Option<String>>)
    ensures
        r is Some <==> json_opt_parsed(s@) is Some,
        r matches Some(v) ==> json_opt_parsed(s@) == Some(v.deep_view()),
{
    serde_json::from_str::<Option<String>>(s).ok()
}

} // verus!
