use netcalyx::netconf::yang_module_cache::{ModuleStore, YangModuleCache};
use std::sync::Arc;

#[test]
fn test_new_is_empty() {
    let c = YangModuleCache::new();
    assert!(c.is_empty());
    assert_eq!(c.len(), 0);
    assert_eq!(c.stats().size, 0);
}

#[test]
fn test_miss_increments_miss_counter() {
    let c = YangModuleCache::new();
    assert!(c.get("ietf-interfaces", "2018-02-20").is_none());
    assert_eq!(c.stats().misses, 1);
    assert_eq!(c.stats().hits, 0);
}

#[test]
fn test_insert_and_hit_increments_hit_counter() {
    let c = YangModuleCache::new();
    c.insert(
        "ietf-interfaces",
        "2018-02-20",
        Arc::from("module ietf-interfaces { }"),
    );
    assert_eq!(c.stats().size, 1);

    let result = c.get("ietf-interfaces", "2018-02-20");
    assert_eq!(result.as_deref(), Some("module ietf-interfaces { }"));
    assert_eq!(c.stats().hits, 1);
    assert_eq!(c.stats().misses, 0);
}

#[test]
fn test_first_writer_wins() {
    let c = YangModuleCache::new();
    c.insert("mod", "2024-01-01", Arc::from("first"));
    c.insert("mod", "2024-01-01", Arc::from("second"));
    assert_eq!(c.get("mod", "2024-01-01").as_deref(), Some("first"));
    assert_eq!(c.stats().size, 1);
}

#[test]
fn test_different_revisions_are_distinct_keys() {
    let c = YangModuleCache::new();
    c.insert("mod", "2023-01-01", Arc::from("old"));
    c.insert("mod", "2024-01-01", Arc::from("new"));
    assert_eq!(c.get("mod", "2023-01-01").as_deref(), Some("old"));
    assert_eq!(c.get("mod", "2024-01-01").as_deref(), Some("new"));
    assert_eq!(c.stats().size, 2);
}

#[test]
fn test_clone_shares_state() {
    let a = YangModuleCache::new();
    let b = a.clone();
    a.insert("mod", "2024-01-01", Arc::from("value"));
    assert_eq!(b.get("mod", "2024-01-01").as_deref(), Some("value"));
    // hit recorded on `b` is visible via `a.stats` (same Arc)
    assert_eq!(a.stats().hits, 1);
}

#[test]
fn default_cache_is_empty() {
    let c = YangModuleCache::default();
    assert!(c.is_empty());
    c.insert("mod", "2024-01-01", Arc::from("value"));
    assert!(!c.is_empty());
    assert_eq!(c.len(), 1);
}

#[test]
fn key_tells_name_and_revision_apart() {
    assert_eq!(YangModuleCache::make_key("mod", "2024-01-01"), "3@mod2024-01-01");
    assert_ne!(YangModuleCache::make_key("ab", "c"), YangModuleCache::make_key("a", "bc"));
    assert_eq!(YangModuleCache::make_key("é", ""), "1@é");
}

#[test]
fn pairs_that_look_alike_are_kept_apart() {
    let c = YangModuleCache::new();
    c.insert("a@b", "c", Arc::from("x"));
    assert!(c.get("a", "b@c").is_none());
    assert_eq!(c.stats().misses, 1);
    c.insert("a", "b@c", Arc::from("y"));
    assert_eq!(c.get("a@b", "c").as_deref(), Some("x"));
    assert_eq!(c.get("a", "b@c").as_deref(), Some("y"));
    assert_eq!(c.len(), 2);
}

#[test]
fn cache_holds_the_distinct_pairs_with_their_first_texts() {
    let cache = YangModuleCache::new();
    let clones: Vec<YangModuleCache> = (0..8).map(|_| cache.clone()).collect();
    for (t, c) in clones.iter().enumerate() {
        for i in 0..20 {
            let name = format!("mod-{i}");
            let revision = format!("2024-{i:02}-01");
            c.insert(&name, &revision, Arc::from(format!("text-{i}").as_str()));
            c.insert(&name, &revision, Arc::from(format!("other-text-{t}-{i}").as_str()));
            assert!(c.get(&name, &revision).is_some());
        }
    }
    assert_eq!(cache.len(), 20);
    assert_eq!(cache.stats().size, 20);
    for i in 0..20 {
        let text = cache.get(&format!("mod-{i}"), &format!("2024-{i:02}-01"));
        assert_eq!(text.as_deref(), Some(format!("text-{i}").as_str()));
    }
}

#[test]
fn store_counts_each_operation() {
    let mut store = ModuleStore::new();
    assert!(store.is_empty());
    assert!(store.get("mod", "1").is_none());
    store.insert("mod", "1", Arc::from("text"));
    store.insert("other", "1", Arc::from("other"));
    assert_eq!(store.get("mod", "1").as_deref(), Some("text"));
    assert_eq!(store.get("other", "1").as_deref(), Some("other"));
    let stats = store.stats();
    assert_eq!((stats.hits, stats.misses, stats.size), (2, 1, 2));
    assert!(!store.is_empty());
}

fn is_shareable<T: Send + Sync>() -> bool {
    true
}

#[test]
fn cache_can_be_shared_between_threads() {
    assert!(is_shareable::<YangModuleCache>());
}
