use fluid_search::optimizer::{bytes_contains, FileContentCache, PathFilter, PatternCache};

#[test]
fn test_pattern_cache() {
    let mut cache = PatternCache::new(10);
    let pattern = "test";

    assert!(!cache.is_cached(pattern));
    cache.add(pattern.to_string());
    assert!(cache.is_cached(pattern));
}

#[test]
fn test_pattern_cache_eviction() {
    let mut cache = PatternCache::new(2);
    cache.add("a".to_string());
    cache.add("b".to_string());
    cache.add("c".to_string());
    // the oldest pattern leaves first
    assert!(!cache.is_cached("a"));
    assert!(cache.is_cached("b"));
    assert!(cache.is_cached("c"));
    assert_eq!(cache.len(), 2);
}

#[test]
fn test_file_content_cache() {
    let mut cache = FileContentCache::new(1000);
    let path = "/test/file.txt".to_string();
    let content = b"test content".to_vec();

    cache.insert(path, content.clone());
    let cached = cache.get("/test/file.txt");
    assert!(cached.is_some());
    assert_eq!(cached.unwrap(), &content);
}

#[test]
fn test_file_content_cache_eviction_order() {
    let mut cache = FileContentCache::new(10);
    cache.insert("/a".to_string(), vec![0u8; 4]);
    cache.insert("/b".to_string(), vec![1u8; 4]);
    assert_eq!(cache.stats(), (2, 8));

    // inserting four more bytes pushes out the oldest entry only
    cache.insert("/c".to_string(), vec![2u8; 4]);
    assert!(cache.get("/a").is_none());
    assert!(cache.get("/b").is_some());
    assert!(cache.get("/c").is_some());
    assert_eq!(cache.stats(), (2, 8));
}

#[test]
fn test_file_content_cache_oversized_entry() {
    let mut cache = FileContentCache::new(10);
    cache.insert("/small".to_string(), vec![0u8; 4]);
    // a buffer larger than the whole budget is rejected outright
    cache.insert("/big".to_string(), vec![1u8; 11]);
    assert!(cache.get("/big").is_none());
    assert!(cache.get("/small").is_some());
    assert_eq!(cache.stats(), (1, 4));
}

#[test]
fn test_file_content_cache_clear() {
    let mut cache = FileContentCache::new(100);
    cache.insert("/a".to_string(), vec![0u8; 10]);
    cache.clear();
    assert_eq!(cache.stats(), (0, 0));
    assert!(cache.get("/a").is_none());
}

#[test]
fn test_path_filter() {
    let filter = PathFilter::default_filter();

    // Should skip node_modules
    assert!(filter.matches_deny_list("/project/node_modules/pkg/file.js"));

    // Should skip .git
    assert!(filter.matches_deny_list("/project/.git/config"));

    // Should skip target
    assert!(filter.matches_deny_list("/project/target/debug/app"));

    // Should not skip normal paths
    assert!(!filter.matches_deny_list("/project/src/main.rs"));
}

#[test]
fn test_path_filter_size_limit() {
    let filter = PathFilter::default_filter();
    assert_eq!(filter.max_file_size, 1_000_000);
    assert!(!filter.exceeds_max_size(1_000_000));
    assert!(filter.exceeds_max_size(1_000_001));
}

#[test]
fn test_binary_detection() {
    let filter = PathFilter::default_filter();

    // Binary content with sparse null bytes
    let binary = b"ELF\x00\x01\x02\x03\x04";
    assert!(filter.is_binary(binary));

    // Text content
    let text = b"fn main() { println!(\"hello\"); }";
    assert!(!filter.is_binary(text));

    // UTF-16 text (alternating nulls) - should NOT be detected as binary
    let utf16: Vec<u8> = vec![
        b'h', 0, b'e', 0, b'l', 0, b'l', 0, b'o', 0, // "hello" in UTF-16LE
        b' ', 0, b'w', 0, b'o', 0, b'r', 0, b'l', 0, b'd', 0, // "world" in UTF-16LE
    ];
    assert!(!filter.is_binary(&utf16));
}

#[test]
fn test_bytes_contains() {
    assert!(bytes_contains(b"/project/target/debug", b"target"));
    assert!(bytes_contains(b"anything", b""));
    assert!(!bytes_contains(b"short", b"muchlongerneedle"));
    assert!(!bytes_contains(b"abcdef", b"ace"));
}
