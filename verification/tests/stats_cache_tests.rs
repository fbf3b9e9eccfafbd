use semcs::stats_cache::{IndexStats, StatsCache};

fn stats(files: usize) -> IndexStats {
    IndexStats { file_count: files, chunk_count: 2 * files, model_name: "bge-small".to_string(), last_updated: 7, is_valid: true }
}

#[test]
fn stored_stats_are_served_until_they_expire() {
    let mut cache = StatsCache::new(1000);
    assert!(cache.get("/repo", 0).is_none());
    cache.update("/repo", stats(3), 100);
    let got = cache.get("/repo/./", 500).unwrap();
    assert_eq!((got.file_count, got.chunk_count, got.model_name.as_str()), (3, 6, "bge-small"));
    assert!(cache.get("/repo", 1099).is_some());
    assert!(cache.get("/repo", 1100).is_none());
    // A clock that went back counts as no age.
    assert!(cache.get("/repo", 50).is_some());
}

#[test]
fn updates_replace_and_invalidation_forgets() {
    let mut cache = StatsCache::default();
    cache.update("a", stats(1), 0);
    cache.update("b", stats(2), 0);
    cache.update("./a", stats(5), 10);
    assert_eq!(cache.get("a", 20).unwrap().file_count, 5);
    cache.invalidate("a");
    assert!(cache.get("a", 20).is_none());
    assert_eq!(cache.get("b", 20).unwrap().file_count, 2);
    assert!(cache.get("b", 30_000).is_none());
}
