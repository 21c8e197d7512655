use panopticon::cache::VerifiedCache;

#[test]
fn insert_then_contains() {
    let mut c = VerifiedCache::new();
    assert!(!c.contains("https://a.example"));
    c.insert("https://a.example", 100);
    assert!(c.contains("https://a.example"));
    assert!(!c.contains("https://b.example"));
    c.insert("https://a.example", 200);
    assert!(c.contains("https://a.example"));
}

#[test]
fn prune_drops_stale_entries() {
    let mut c = VerifiedCache::new();
    c.insert("old", 0);
    c.insert("new", 50);
    c.prune(60, 20);
    assert!(!c.contains("old"));
    assert!(c.contains("new"));
    c.prune(70, 20);
    assert!(!c.contains("new"));
}

#[test]
fn reinsert_refreshes_the_time() {
    let mut c = VerifiedCache::new();
    c.insert("a", 0);
    c.insert("a", 90);
    c.prune(100, 20);
    assert!(c.contains("a"));
    c.prune(100, 10);
    assert!(!c.contains("a"));
}
