use bread_scan::weights::{
    apply_projects, merge_projects, StrMap, Weights, WorkingWeights,
};
use bread_scan::DEFAULT_WEIGHT;

#[test]
fn strmap_insert_get_overwrite() {
    let mut m: StrMap<u32> = StrMap::new();
    assert_eq!(m.len(), 0);
    m.insert("a".to_string(), 1);
    m.insert("b".to_string(), 2);
    m.insert("a".to_string(), 3);
    assert_eq!(m.len(), 2);
    assert_eq!(m.get(&"a".to_string()), Some(&3));
    assert_eq!(m.get(&"b".to_string()), Some(&2));
    assert_eq!(m.get(&"c".to_string()), None);
    assert!(m.contains_key(&"a".to_string()));
    assert!(!m.contains_key(&"c".to_string()));
}

#[test]
fn merge_override_scenario() {
    // Destination {P: 50, Q: 70}; merged source {P -> 100}.
    let mut dest: StrMap<u32> = StrMap::new();
    dest.insert("P".to_string(), 50);
    dest.insert("Q".to_string(), 70);
    let mut merged: StrMap<Option<u32>> = StrMap::new();
    merged.insert("P".to_string(), Some(100));
    apply_projects(&mut dest, &merged);
    assert_eq!(dest.get(&"P".to_string()), Some(&100));
    assert_eq!(dest.get(&"Q".to_string()), Some(&70));
    assert_eq!(dest.len(), 2);
}

#[test]
fn merge_override_with_pruning() {
    let mut dest: StrMap<u32> = StrMap::new();
    dest.insert("P".to_string(), 50);
    dest.insert("Q".to_string(), 70);
    let mut merged: StrMap<Option<u32>> = StrMap::new();
    merged.insert("P".to_string(), Some(100));
    apply_projects(&mut dest, &merged);
    dest.prune_absent(&merged);
    assert_eq!(dest.get(&"P".to_string()), Some(&100));
    assert_eq!(dest.get(&"Q".to_string()), None);
    assert_eq!(dest.len(), 1);
}

#[test]
fn bare_mention_never_blanks_a_known_weight() {
    let mut running: StrMap<Option<u32>> = StrMap::new();
    running.insert("P".to_string(), Some(50));
    let mut later: StrMap<Option<u32>> = StrMap::new();
    later.insert("P".to_string(), None);
    later.insert("R".to_string(), None);
    merge_projects(&mut running, &later);
    assert_eq!(running.get(&"P".to_string()), Some(&Some(50)));
    assert_eq!(running.get(&"R".to_string()), Some(&None));
}

#[test]
fn explicit_weight_overwrites_on_merge() {
    let mut running: StrMap<Option<u32>> = StrMap::new();
    running.insert("P".to_string(), Some(50));
    let mut later: StrMap<Option<u32>> = StrMap::new();
    later.insert("P".to_string(), Some(90));
    merge_projects(&mut running, &later);
    assert_eq!(running.get(&"P".to_string()), Some(&Some(90)));
}

#[test]
fn new_key_without_weight_enters_at_default() {
    let mut dest: StrMap<u32> = StrMap::new();
    let mut merged: StrMap<Option<u32>> = StrMap::new();
    merged.insert("N".to_string(), None);
    apply_projects(&mut dest, &merged);
    assert_eq!(dest.get(&"N".to_string()), Some(&DEFAULT_WEIGHT));
}

#[test]
fn account_merge_rules() {
    let mut dst = WorkingWeights::new();
    dst.record_account("acct".to_string(), "old memo".to_string(), Some(10));
    let mut src = WorkingWeights::new();
    src.record_account("acct".to_string(), "".to_string(), None);
    dst.merge_from(&src);
    // A bare mention changes neither weight nor memo.
    let a = dst.accounts.get(&"acct".to_string()).unwrap();
    assert_eq!(a.weight, Some(10));
    assert_eq!(a.memo, "old memo".to_string());

    let mut src2 = WorkingWeights::new();
    src2.record_account("acct".to_string(), "new memo".to_string(), Some(20));
    dst.merge_from(&src2);
    let a = dst.accounts.get(&"acct".to_string()).unwrap();
    assert_eq!(a.weight, Some(20));
    assert_eq!(a.memo, "new memo".to_string());
}

#[test]
fn apply_working_to_project_config() {
    let mut cfg = Weights::new();
    cfg.projects.insert("P".to_string(), 50);
    cfg.projects.insert("Q".to_string(), 70);
    cfg.accounts.insert("acct".to_string(), 5);
    let mut merged = WorkingWeights::new();
    merged.record_project_weight("P".to_string(), Some(100));
    cfg.apply_working(&merged, false, true);
    assert_eq!(cfg.projects.get(&"P".to_string()), Some(&100));
    assert_eq!(cfg.projects.get(&"Q".to_string()), None);
    // No account pruning was asked for.
    assert_eq!(cfg.accounts.get(&"acct".to_string()), Some(&5));
}

#[test]
fn partial_failure_isolation() {
    // Three sibling units; the middle one failed and contributes nothing.
    let mut w = WorkingWeights::new();
    let outcomes = vec![
        Some("https://github.com/a/b".to_string()),
        None,
        Some("https://gitlab.com/c/d".to_string()),
    ];
    w.record_outcomes(&outcomes);
    assert_eq!(w.projects.len(), 2);
    assert!(w
        .projects
        .contains_key(&"https://github.com/a/b".to_string()));
    assert!(w
        .projects
        .contains_key(&"https://gitlab.com/c/d".to_string()));
}

#[test]
fn record_project_overwrites_same_key() {
    let mut w = WorkingWeights::new();
    w.record_project_weight("u".to_string(), Some(1));
    w.record_project("u".to_string());
    assert_eq!(w.projects.get(&"u".to_string()), Some(&None));
    assert_eq!(w.projects.len(), 1);
}
