use webarcade::cache::{BuildCache, plugin_needs_rebuild, update_build_cache};

#[test]
fn missing_artifact_needs_rebuild() {
    let mut cache = BuildCache::new();
    cache.set("p", "aaaa".to_string(), 7);
    assert!(plugin_needs_rebuild(&cache, "p", false, "aaaa"));
}

#[test]
fn missing_entry_needs_rebuild() {
    let cache = BuildCache::new();
    assert!(plugin_needs_rebuild(&cache, "p", true, "aaaa"));
}

#[test]
fn changed_digest_needs_rebuild() {
    let mut cache = BuildCache::new();
    cache.set("p", "aaaa".to_string(), 7);
    assert!(plugin_needs_rebuild(&cache, "p", true, "bbbb"));
}

#[test]
fn unchanged_sources_skip_rebuild() {
    let mut cache = BuildCache::new();
    cache.set("p", "aaaa".to_string(), 7);
    assert!(!plugin_needs_rebuild(&cache, "p", true, "aaaa"));
}

#[test]
fn set_overwrites_and_keeps_others() {
    let mut cache = BuildCache::new();
    cache.set("p", "aaaa".to_string(), 1);
    cache.set("q", "cccc".to_string(), 2);
    cache.set("p", "bbbb".to_string(), 3);
    let p = cache.get("p").unwrap();
    assert_eq!(p.source_hash, "bbbb");
    assert_eq!(p.built_at, 3);
    let q = cache.get("q").unwrap();
    assert_eq!(q.source_hash, "cccc");
    assert_eq!(q.built_at, 2);
    assert!(cache.get("r").is_none());
}

#[test]
fn update_build_cache_records_build() {
    let mut cache = BuildCache::new();
    update_build_cache(&mut cache, "p", "dddd".to_string(), 42);
    let p = cache.get("p").unwrap();
    assert_eq!(p.source_hash, "dddd");
    assert_eq!(p.built_at, 42);
}

#[test]
fn cache_path_lies_under_build_dir() {
    assert_eq!(BuildCache::cache_path("/repo"), "/repo/build/.build_cache.json");
}
