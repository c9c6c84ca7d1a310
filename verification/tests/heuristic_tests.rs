use fluid_search::edit_distance::{is_close_match, levenshtein_distance};
use fluid_search::heuristic::{
    calculate_length_similarity, calculate_relevance_score, calculate_relevance_score_breakdown,
    calculate_relevance_score_with_config, count_consecutive_matches, fuzzy_match,
    fuzzy_match_with_threshold, is_substring_match, is_word_boundary_match, HeuristicConfig,
    ScoringWeights,
};

#[test]
fn test_fuzzy_match() {
    assert!(fuzzy_match("fn", "function"));
    assert!(fuzzy_match("rg", "ripgrep"));
    assert!(fuzzy_match("abc", "aXbXc"));
    assert!(!fuzzy_match("xyz", "abc"));
    assert!(fuzzy_match("", "anything")); // empty pattern matches anything
}

#[test]
fn test_fuzzy_match_with_threshold() {
    // thresholds are given in per-mille
    assert!(fuzzy_match_with_threshold("fn", "function", 500));
    assert!(fuzzy_match_with_threshold("abc", "aXbXc", 600));
    assert!(!fuzzy_match_with_threshold("xyz", "abc", 500));
}

#[test]
fn test_levenshtein_distance() {
    assert_eq!(levenshtein_distance("cat", "cat"), 0);
    assert_eq!(levenshtein_distance("cat", "car"), 1);
    assert_eq!(levenshtein_distance("kitten", "sitting"), 3);
    assert_eq!(levenshtein_distance("", "abc"), 3);
    assert_eq!(levenshtein_distance("abc", ""), 3);
}

#[test]
fn test_levenshtein_distance_symmetry() {
    assert_eq!(
        levenshtein_distance("kitten", "sitting"),
        levenshtein_distance("sitting", "kitten")
    );
    assert_eq!(levenshtein_distance("flaw", "lawn"), levenshtein_distance("lawn", "flaw"));
    assert_eq!(levenshtein_distance("flaw", "lawn"), 2);
}

#[test]
fn test_is_close_match() {
    assert!(is_close_match("hello", "helo", Some(1)));
    assert!(is_close_match("world", "word", Some(1)));
    assert!(!is_close_match("hello", "xyz", Some(1)));
    // Test with dynamic threshold
    assert!(is_close_match("hello", "helo", None)); // threshold = 5/4 = 1
}

#[test]
fn test_substring_match() {
    // Case-insensitive (default)
    assert!(is_substring_match("test", "testing", false));
    assert!(is_substring_match("TEST", "testing", false));
    assert!(!is_substring_match("xyz", "abc", false));

    // Case-sensitive
    assert!(is_substring_match("test", "testing", true));
    assert!(!is_substring_match("TEST", "testing", true));
    assert!(!is_substring_match("xyz", "abc", true));
}

#[test]
fn test_consecutive_matches() {
    // Pattern "abc" in "aXbXc" - has gaps (X between each)
    let (matched, is_consecutive) = count_consecutive_matches("abc", "aXbXc");
    assert_eq!(matched, 3);
    assert!(!is_consecutive); // scattered, not consecutive

    // Pattern "abc" in "abc" - no gaps
    let (matched, is_consecutive) = count_consecutive_matches("abc", "abc");
    assert_eq!(matched, 3);
    assert!(is_consecutive); // all consecutive

    // Pattern "ab" in "aXbXc" - has gap (X between)
    let (matched, is_consecutive) = count_consecutive_matches("ab", "aXbXc");
    assert_eq!(matched, 2);
    assert!(!is_consecutive);

    // Pattern "ab" in "ab" - no gaps
    let (matched, is_consecutive) = count_consecutive_matches("ab", "ab");
    assert_eq!(matched, 2);
    assert!(is_consecutive);
}

#[test]
fn test_length_similarity() {
    // similarity is reported in per-mille
    assert_eq!(calculate_length_similarity("test", "test"), 1000);
    assert!(calculate_length_similarity("test", "testing") < 1000);
    assert!(calculate_length_similarity("test", "testing") > 0);
    assert_eq!(calculate_length_similarity("test", "testing"), 571);
}

#[test]
fn test_word_boundary_match() {
    assert!(is_word_boundary_match("test", "test", false));
    assert!(is_word_boundary_match("test", "test case", false));
    assert!(!is_word_boundary_match("test", "testing", false));
}

#[test]
fn test_word_boundary_match_any_occurrence() {
    // the first occurrence is embedded in a word, the second stands free
    assert!(is_word_boundary_match("test", "atest test", false));
    assert!(is_word_boundary_match("test", "atest test", true));
    // every occurrence is embedded
    assert!(!is_word_boundary_match("test", "atestb xtesty", false));
}

#[test]
fn test_word_boundary_match_unicode() {
    assert!(is_word_boundary_match("test", "test case", true));
    assert!(!is_word_boundary_match("test", "xtesty", true));
    // a letter outside ASCII still blocks the boundary in Unicode mode
    assert!(!is_word_boundary_match("tag", "étagère", true));
}

#[test]
fn test_relevance_score() {
    let exact_score = calculate_relevance_score("test", "test", true, true);
    let partial_score = calculate_relevance_score("test", "testing", false, true);
    assert!(exact_score > partial_score);
}

#[test]
fn test_relevance_score_normalized() {
    let score = calculate_relevance_score("test", "test", true, true);
    assert!(score <= 1000); // Should be normalized to 0-1000
    assert!(score > 0);
}

#[test]
fn test_relevance_score_exact_values() {
    // an exact match saturates the scale
    assert_eq!(calculate_relevance_score("test", "test", true, true), 1000);
    // unrelated equal-length strings keep only the length-similarity part
    assert_eq!(calculate_relevance_score("xyz", "abc", false, false), 100);
    // "test" against "testing": fuzzy (200) + substring (150) + length (57)
    assert_eq!(calculate_relevance_score("test", "testing", false, false), 407);
}

#[test]
fn test_relevance_score_deterministic() {
    let a = calculate_relevance_score("fn", "function", false, true);
    let b = calculate_relevance_score("fn", "function", false, true);
    assert_eq!(a, b);
    assert!(a <= 1000);
}

#[test]
fn test_heuristic_config() {
    let config = HeuristicConfig::default();
    // fractions are carried in per-mille
    assert_eq!(config.fuzzy_threshold, 600);
    assert_eq!(config.max_edit_distance, None);
    assert!(config.unicode_aware);
    assert!(!config.case_sensitive_substring);
    assert_eq!(config.consecutive_match_bonus, 1000);
}

#[test]
fn test_heuristic_config_custom() {
    let config = HeuristicConfig::new(800, Some(2), false, true, 1500);
    assert_eq!(config.fuzzy_threshold, 800);
    assert_eq!(config.max_edit_distance, Some(2));
    assert!(!config.unicode_aware);
    assert!(config.case_sensitive_substring);
    assert_eq!(config.consecutive_match_bonus, 1500);
}

#[test]
fn test_score_breakdown() {
    let breakdown = calculate_relevance_score_breakdown(
        "test",
        "test",
        true,
        true,
        &HeuristicConfig::default(),
    );
    assert!(breakdown.exact_match > 0);
    assert!(breakdown.total <= 1000);
}

#[test]
fn test_score_breakdown_matches_score() {
    let config = HeuristicConfig::default();
    let breakdown =
        calculate_relevance_score_breakdown("fn", "function", false, true, &config);
    let score = calculate_relevance_score_with_config("fn", "function", false, true, &config);
    assert_eq!(breakdown.total, score);
}

#[test]
fn test_edge_cases() {
    // Empty pattern
    assert!(fuzzy_match("", "anything"));
    assert_eq!(levenshtein_distance("", ""), 0);
    assert_eq!(levenshtein_distance("", "abc"), 3);

    // Empty text
    assert!(!fuzzy_match("abc", ""));
    assert_eq!(levenshtein_distance("abc", ""), 3);
}

#[test]
fn test_scoring_weights() {
    let weights = ScoringWeights::default();
    // weights are carried in per-mille
    assert_eq!(weights.exact_match, 1000);
    assert_eq!(weights.case_sensitive, 500);
    assert_eq!(weights.word_boundary, 300);

    let custom = ScoringWeights::new(2000, 1000, 500, 300, 200, 100);
    assert_eq!(custom.exact_match, 2000);
}

#[test]
fn test_scoring_weights_normalize() {
    let weights = ScoringWeights::new(2000, 1000, 500, 300, 200, 100);
    let normalized = weights.normalize();
    let sum = normalized.exact_match
        + normalized.case_sensitive
        + normalized.word_boundary
        + normalized.fuzzy_match
        + normalized.substring_match
        + normalized.length_similarity;
    // integer truncation loses less than one per-mille per weight
    assert!(sum <= 1000 && sum >= 994);
    assert_eq!(normalized.exact_match, 487);
    assert_eq!(normalized.case_sensitive, 243);
}

#[test]
fn test_heuristic_config_with_weights() {
    let weights = ScoringWeights::new(900, 400, 300, 200, 100, 50);
    let config = HeuristicConfig::with_weights(700, None, true, false, 1000, weights);
    assert_eq!(config.fuzzy_threshold, 700);
    assert_eq!(config.weights.exact_match, 900);
    assert_eq!(config.weights.length_similarity, 50);
}

#[test]
fn test_scoring_weights_normalize_zero() {
    let weights = ScoringWeights::new(0, 0, 0, 0, 0, 0);
    let normalized = weights.normalize();
    assert_eq!(normalized.exact_match, 1000);
    assert_eq!(normalized.length_similarity, 100);
}
