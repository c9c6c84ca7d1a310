use fluid_search::cache::{BoundedSearch, CachedResult, DirectoryCache, SearchResultCache};

#[test]
fn test_directory_cache() {
    let mut cache = DirectoryCache::new();
    let dir = "/test".to_string();
    let entries = vec!["/test/file1".to_string(), "/test/file2".to_string()];

    cache.insert(dir.clone(), entries.clone(), 0);
    let cached = cache.get("/test", 0);
    assert!(cached.is_some());
    assert_eq!(*cached.unwrap(), entries);
}

#[test]
fn test_directory_cache_expiry() {
    let mut cache = DirectoryCache::new();
    let dir = "/test".to_string();
    let entries = vec!["/test/file1".to_string()];

    // the cache keeps entries for five ticks
    cache.insert(dir, entries, 10);
    assert!(cache.get("/test", 14).is_some());
    assert_eq!(cache.get("/test", 15), None);
}

#[test]
fn test_directory_cache_cleanup() {
    let mut cache = DirectoryCache::new();
    cache.insert("/old".to_string(), vec!["/old/a".to_string()], 0);
    cache.insert("/new".to_string(), vec!["/new/b".to_string()], 10);

    cache.cleanup(12);
    assert_eq!(cache.get("/old", 12), None);
    assert!(cache.get("/new", 12).is_some());
}

#[test]
fn test_directory_cache_overwrite() {
    let mut cache = DirectoryCache::new();
    cache.insert("/d".to_string(), vec!["/d/a".to_string()], 0);
    // re-inserting the same key replaces both the listing and the timestamp
    cache.insert("/d".to_string(), vec!["/d/b".to_string()], 6);
    assert_eq!(*cache.get("/d", 7).unwrap(), vec!["/d/b".to_string()]);
}

#[test]
fn test_search_result_cache() {
    let mut cache = SearchResultCache::new();
    let results = vec![
        CachedResult {
            score: 900,
            path: "/test/file1".to_string(),
            line: "result1".to_string(),
            line_number: 1,
        },
        CachedResult {
            score: 800,
            path: "/test/file2".to_string(),
            line: "result2".to_string(),
            line_number: 2,
        },
    ];

    cache.update("test".to_string(), results.clone(), 0);
    assert!(cache.is_valid("test", 0));
    assert_eq!(cache.get("test", 0), Some(results));
}

#[test]
fn test_search_result_cache_prefix() {
    let mut cache = SearchResultCache::new();
    let results = vec![CachedResult {
        score: 900,
        path: "/test/file1".to_string(),
        line: "result1".to_string(),
        line_number: 1,
    }];

    cache.update("test".to_string(), results, 0);
    assert!(cache.is_valid("test", 0));
    assert!(cache.is_valid("testing", 0)); // forward match
    assert!(cache.is_valid("tes", 0)); // backward match (deletion)
    assert!(!cache.is_valid("other", 0)); // no match
}

#[test]
fn test_search_result_cache_expiry() {
    let mut cache = SearchResultCache::new();
    cache.update("test".to_string(), Vec::new(), 5);
    // the cache keeps results for ten ticks
    assert!(cache.is_valid("test", 14));
    assert!(!cache.is_valid("test", 15));
}

#[test]
fn test_search_result_cache_clear() {
    let mut cache = SearchResultCache::new();
    let results = vec![CachedResult {
        score: 500,
        path: "/p".to_string(),
        line: "l".to_string(),
        line_number: 3,
    }];
    cache.update("abc".to_string(), results, 0);
    cache.clear();
    // after clearing, the empty pattern is cached with no results, and the
    // empty pattern is a prefix of every query
    assert_eq!(cache.get("abc", 0), Some(Vec::new()));
    assert_eq!(cache.get("", 0), Some(Vec::new()));
}

#[test]
fn test_bounded_search() {
    let bounded = BoundedSearch::ide_defaults();
    assert_eq!(bounded.max_results, 50);
    assert_eq!(bounded.min_results, 10);
    assert!(bounded.stop_early);
    assert!(!bounded.should_stop(49, 10)); // not enough results
    assert!(bounded.should_stop(50, 10)); // enough results
    assert!(!bounded.should_stop(50, 5)); // not enough files matched
}

#[test]
fn test_bounded_search_unlimited() {
    let bounded = BoundedSearch::unlimited();
    assert_eq!(bounded.max_results, usize::MAX);
    assert!(!bounded.stop_early);
    assert!(!bounded.should_stop(1000, 0));
}

#[test]
fn test_bounded_search_custom() {
    let bounded = BoundedSearch::new(5);
    assert_eq!(bounded.max_results, 5);
    assert_eq!(bounded.min_results, 10);
    assert!(bounded.should_stop(5, 10));
    assert!(!bounded.should_stop(4, 10));
    assert!(!bounded.should_stop(5, 9));
}
