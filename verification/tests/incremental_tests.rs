use fluid_search::incremental::{
    incremental_score, incremental_score_lower, IncrementalResult, IncrementalSearch,
};

/// Helper to create IncrementalResult for tests
fn make_result(text: &str, path: &str, score: u32) -> IncrementalResult {
    let text_lower = text.to_lowercase();
    let text_chars = text_lower.chars().collect::<Vec<_>>();
    IncrementalResult {
        text: text.to_string(),
        text_lower,
        text_chars,
        path: path.to_string(),
        score,
    }
}

#[test]
fn test_incremental_search_creation() {
    let search = IncrementalSearch::new(50);
    assert_eq!(search.stats(), (0, 0));
    assert!(search.get_cached().is_none());
    assert!(!search.can_reuse("a"));
}

#[test]
fn test_can_reuse_forward() {
    let mut search = IncrementalSearch::new(50);
    let results = vec![make_result("function", "/test.rs", 900)];

    search.update("fn".to_string(), results);

    // Forward match: "fn" -> "fnu" (exactly 1 char extension)
    assert!(search.can_reuse("fnu"));

    // "fn" -> "fna" is still a 1-char extension, so it is reusable
    assert!(search.can_reuse("fna"));

    // NOT reusable: "fn" -> "func" (2-char extension)
    assert!(!search.can_reuse("func"));
}

#[test]
fn test_can_reuse_backward() {
    let mut search = IncrementalSearch::new(50);
    let results = vec![make_result("function", "/test.rs", 900)];

    search.update("funct".to_string(), results);

    // Backward match: "funct" -> "func" (exactly 1 char deletion)
    assert!(search.can_reuse("func"));

    // Backward match: "funct" -> "fun" (2-char deletion)
    assert!(!search.can_reuse("fun"));
}

#[test]
fn test_can_reuse_empty_pattern() {
    let mut search = IncrementalSearch::new(50);
    let results = vec![make_result("function", "/test.rs", 900)];

    search.update("fn".to_string(), results);

    // Empty pattern should never reuse
    assert!(!search.can_reuse(""));
}

#[test]
fn test_can_reuse_single_char_rules() {
    let mut search = IncrementalSearch::new(50);
    search.update("fn".to_string(), vec![make_result("function", "/test.rs", 900)]);

    assert!(search.can_reuse("fnu")); // one typed character
    assert!(search.can_reuse("f")); // one deleted character
    assert!(!search.can_reuse("fn")); // same pattern is not a one-character edit
    assert!(!search.can_reuse("func")); // two-character extension
    assert!(!search.can_reuse("xn")); // same length, different text
}

#[test]
fn test_filter_results() {
    let mut search = IncrementalSearch::new(50);
    let results = vec![
        make_result("function", "/test.rs", 900),
        make_result("fn", "/main.rs", 800),
    ];

    search.update("f".to_string(), results);

    // Filter for "fn"
    let filtered = search.filter_results("fn", incremental_score);
    assert_eq!(filtered.len(), 2);
    assert!(filtered[0].score > 0);
}

#[test]
fn test_filter_results_sorted_and_dropped() {
    let mut search = IncrementalSearch::new(50);
    let results = vec![
        make_result("xyz", "/a.rs", 100),
        make_result("refn", "/b.rs", 100),
        make_result("fn", "/c.rs", 100),
    ];
    search.update("f".to_string(), results);

    let filtered = search.filter_results("fn", incremental_score);
    // "xyz" no longer matches and is dropped; "fn" scores above "refn"
    assert_eq!(filtered.len(), 2);
    assert_eq!(filtered[0].text, "fn");
    assert_eq!(filtered[0].score, 1000);
    assert_eq!(filtered[1].text, "refn");
    assert!(filtered[0].score >= filtered[1].score);
}

#[test]
fn test_incremental_score() {
    // Exact match
    assert_eq!(incremental_score("test", "test"), 1000);

    // Starts with
    assert!(incremental_score("test", "testing") > 800);

    // Contains
    assert!(incremental_score("est", "testing") > 600);

    // Fuzzy match
    assert!(incremental_score("tst", "test") > 0);

    // No match
    assert_eq!(incremental_score("xyz", "test"), 0);
}

#[test]
fn test_incremental_score_tiers() {
    assert_eq!(incremental_score("TEST", "test"), 1000); // case folded
    assert_eq!(incremental_score("test", "TESTING"), 900); // prefix
    assert_eq!(incremental_score("est", "testing"), 700); // substring
    assert_eq!(incremental_score("tst", "test"), 295); // 100 + 98 + 97
    assert_eq!(incremental_score("", "anything"), 1000); // empty pattern
}

#[test]
fn test_incremental_score_lower_exact() {
    // "fn" is scattered in "function": awards 100 (index 0) and 98 (index 2)
    assert_eq!(incremental_score_lower("fn", "function"), 198);
    assert_eq!(incremental_score_lower("te", "testing"), 900);
    assert_eq!(incremental_score_lower("tst", "test"), 295);
    assert_eq!(incremental_score_lower("xyz", "test"), 0);
}

#[test]
fn test_clear() {
    let mut search = IncrementalSearch::new(50);
    let results = vec![make_result("test", "/test.rs", 900)];

    search.update("test".to_string(), results);
    assert!(search.get_cached().is_some());

    search.clear();
    assert!(search.get_cached().is_none());
    assert_eq!(search.stats(), (0, 0));
}

#[test]
fn test_update_truncates_and_bounds_history() {
    let mut search = IncrementalSearch::new(2);
    let results = vec![
        make_result("a", "/a.rs", 1),
        make_result("b", "/b.rs", 2),
        make_result("c", "/c.rs", 3),
    ];
    search.update("abc".to_string(), results);
    // only the first two results are kept
    assert_eq!(search.stats().0, 2);

    // the pattern history holds at most one hundred entries
    let mut i = 0;
    while i < 150 {
        search.update(format!("p{}", i), vec![make_result("a", "/a.rs", 1)]);
        i += 1;
    }
    assert_eq!(search.stats().1, 100);
}
