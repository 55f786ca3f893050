use fileshare_core::{SyncEngine, SyncState};

fn state(path: &str, hash: &str) -> SyncState {
    SyncState { path: path.to_string(), hash: hash.to_string(), modified: 1_700_000_000_000, size: 10 }
}

fn entry(path: &str, hash: &str) -> (String, SyncState) {
    (path.to_string(), state(path, hash))
}

#[test]
fn delta_classifies_added_modified_deleted() {
    let mut engine = SyncEngine::new();
    engine.update_state("a".to_string(), state("a", "h1"));
    engine.update_state("b".to_string(), state("b", "h2"));
    engine.update_state("c".to_string(), state("c", "h3"));

    let remote = vec![entry("a", "h1"), entry("b", "changed"), entry("d", "h4")];
    let delta = engine.compute_delta(&remote);

    let added: Vec<&str> = delta.added.iter().map(|s| s.path.as_str()).collect();
    let modified: Vec<&str> = delta.modified.iter().map(|s| s.path.as_str()).collect();
    assert_eq!(added, vec!["d"]);
    assert_eq!(modified, vec!["b"]);
    assert_eq!(delta.modified[0].hash, "changed");
    assert_eq!(delta.deleted, vec!["c".to_string()]);
}

#[test]
fn update_replaces_and_remove_forgets() {
    let mut engine = SyncEngine::new();
    engine.update_state("a".to_string(), state("a", "old"));
    engine.update_state("a".to_string(), state("a", "new"));
    let delta = engine.compute_delta(&[entry("a", "new")]);
    assert!(delta.added.is_empty() && delta.modified.is_empty() && delta.deleted.is_empty());

    engine.remove_state("a");
    let delta = engine.compute_delta(&[entry("a", "new")]);
    assert_eq!(delta.added.len(), 1);
    engine.remove_state("missing");
}

#[test]
fn empty_tables_give_empty_delta() {
    let engine = SyncEngine::new();
    let delta = engine.compute_delta(&[]);
    assert!(delta.added.is_empty() && delta.modified.is_empty() && delta.deleted.is_empty());
}
