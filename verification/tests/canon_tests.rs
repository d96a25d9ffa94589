use bread_scan::canon::{
    add_url_canonicalize, canonicalize_with_page, discovery_target, first_forge_match,
    maybe_add_url,
};
use bread_scan::weights::WorkingWeights;

fn canon(url: &str) -> Option<String> {
    canonicalize_with_page(&url.to_string(), None)
}

#[test]
fn forge_truncation_github() {
    let r = canon("https://github.com/foo/bar/tree/main/sub");
    assert_eq!(r, Some("https://github.com/foo/bar".to_string()));
}

#[test]
fn forge_truncation_gitlab_and_srht() {
    assert_eq!(
        canon("https://gitlab.com/grp/proj/-/tree/main"),
        Some("https://gitlab.com/grp/proj".to_string())
    );
    assert_eq!(
        canon("https://sr.ht/~user/proj/log"),
        Some("https://sr.ht/~user/proj".to_string())
    );
}

#[test]
fn forge_self_hosted_gitlab_label() {
    assert_eq!(
        canon("https://gitlab.freedesktop.org/org/repo/issues/3"),
        Some("https://gitlab.freedesktop.org/org/repo".to_string())
    );
}

#[test]
fn pages_rewrite() {
    let r = canon("https://foo.github.io/docs/x");
    assert_eq!(r, Some("https://github.com/foo/docs".to_string()));
}

#[test]
fn canonicalization_idempotent() {
    let once = canon("https://github.com/foo/bar/tree/main/sub").unwrap();
    let twice = canon(&once).unwrap();
    assert_eq!(once, twice);
}

#[test]
fn non_forge_fallback_strips_query_and_fragment() {
    let r = canon("https://example.com/project?x=1#y");
    assert_eq!(r, Some("https://example.com/project".to_string()));
}

#[test]
fn fallback_keeps_explicit_port() {
    let r = canon("https://example.com:8080/a?q=1");
    assert_eq!(r, Some("https://example.com:8080/a".to_string()));
}

#[test]
fn unparseable_url_rejected() {
    assert_eq!(canon("not a url"), None);
}

#[test]
fn forge_requires_exact_host() {
    // Only the exact forge hosts count; a subdomain of one is no forge and
    // falls back to the syntactic normalization.
    let mut w = WorkingWeights::new();
    assert!(!maybe_add_url(
        &mut w,
        &"https://api.github.com/repos/a/b".to_string()
    ));
    assert_eq!(
        canon("https://api.github.com/repos/a/b?page=2"),
        Some("https://api.github.com/repos/a/b".to_string())
    );
}

#[test]
fn forge_with_short_path_keeps_what_is_there() {
    assert_eq!(
        canon("https://github.com/onlyorg"),
        Some("https://github.com/onlyorg".to_string())
    );
    assert_eq!(
        canon("https://github.com"),
        Some("https://github.com".to_string())
    );
}

#[test]
fn pages_host_with_empty_path() {
    assert_eq!(
        canon("https://foo.github.io"),
        Some("https://github.com/foo".to_string())
    );
}

#[test]
fn maybe_add_url_records_forge_only() {
    let mut w = WorkingWeights::new();
    assert!(maybe_add_url(
        &mut w,
        &"https://github.com/a/b/extra".to_string()
    ));
    assert!(w
        .projects
        .contains_key(&"https://github.com/a/b".to_string()));

    let mut w2 = WorkingWeights::new();
    assert!(!maybe_add_url(
        &mut w2,
        &"https://example.com/project".to_string()
    ));
    assert_eq!(w2.projects.len(), 0);
    assert!(!maybe_add_url(&mut w2, &"not a url".to_string()));
    assert_eq!(w2.projects.len(), 0);
}

#[test]
fn fallback_still_recorded_by_unconditional_add() {
    let mut w = WorkingWeights::new();
    add_url_canonicalize(&mut w, &"https://example.com/project?x=1#y".to_string(), None);
    assert!(w
        .projects
        .contains_key(&"https://example.com/project".to_string()));
    assert_eq!(w.projects.len(), 1);
}

#[test]
fn first_forge_match_takes_first_accepted_and_stops() {
    let mut w = WorkingWeights::new();
    let candidates = vec![
        "not a url".to_string(),
        "https://example.com/docs".to_string(),
        "https://github.com/one/two/sub".to_string(),
        "https://gitlab.com/three/four".to_string(),
    ];
    let r = first_forge_match(&mut w, &candidates);
    assert_eq!(r, Some(2));
    assert!(w
        .projects
        .contains_key(&"https://github.com/one/two".to_string()));
    assert!(!w
        .projects
        .contains_key(&"https://gitlab.com/three/four".to_string()));
    assert_eq!(w.projects.len(), 1);
}

#[test]
fn first_forge_match_none_records_nothing() {
    let mut w = WorkingWeights::new();
    let candidates = vec![
        "https://example.com/a".to_string(),
        "nope".to_string(),
    ];
    assert_eq!(first_forge_match(&mut w, &candidates), None);
    assert_eq!(w.projects.len(), 0);
}

#[test]
fn discovery_target_only_for_parseable_non_forge() {
    assert_eq!(
        discovery_target(&"https://example.com/p".to_string()),
        Some("https://example.com/p".to_string())
    );
    assert_eq!(discovery_target(&"https://github.com/a/b".to_string()), None);
    assert_eq!(discovery_target(&"not a url".to_string()), None);
}

#[test]
fn discovery_follows_canonical_link_one_hop() {
    let page = "<html><head>\
        <link rel=\"canonical\" href=\"https://github.com/real/home/tree/x\">\
        </head><body></body></html>"
        .to_string();
    let r = canonicalize_with_page(&"https://example.com/mirror".to_string(), Some(&page));
    assert_eq!(r, Some("https://github.com/real/home".to_string()));
}

#[test]
fn discovery_non_forge_href_normalized_syntactically() {
    let page = "<html><head>\
        <link rel=\"canonical\" href=\"https://other.example.org/page?utm=1\">\
        </head></html>"
        .to_string();
    let r = canonicalize_with_page(&"https://example.com/mirror".to_string(), Some(&page));
    assert_eq!(r, Some("https://other.example.org/page".to_string()));
}

#[test]
fn discovery_page_without_canonical_falls_back() {
    let page = "<html><head><title>t</title></head><body><a href=\"x\">x</a></body></html>"
        .to_string();
    let r = canonicalize_with_page(&"https://example.com/mirror?v=2".to_string(), Some(&page));
    assert_eq!(r, Some("https://example.com/mirror".to_string()));
}
