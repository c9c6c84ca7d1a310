use fluid_search::heuristic::HeuristicConfig;
use fluid_search::highlight::{find_match_positions, highlight_matches};
use fluid_search::ranking::{rank_candidates, ScoredMatch};

#[test]
fn test_scored_match_ordering() {
    let m1 = ScoredMatch {
        text: "test1".to_string(),
        score: 500,
    };
    let m2 = ScoredMatch {
        text: "test2".to_string(),
        score: 800,
    };
    // m2 has higher score (800 > 500), so m2 should come first when sorted
    // (higher scores compare as less, i.e. they sort first)
    assert!(m2 < m1);
}

#[test]
fn test_rank_candidates() {
    let candidates = vec!["function", "fn", "final", "filter"];
    let config = HeuristicConfig::default();
    let ranked = rank_candidates("fn", &candidates, &config);

    // Should have results
    assert!(!ranked.is_empty());
    // Should be sorted by score descending
    for i in 1..ranked.len() {
        assert!(ranked[i - 1].score >= ranked[i].score);
    }
}

#[test]
fn test_rank_candidates_exact_first() {
    let candidates = vec!["function", "fn"];
    let config = HeuristicConfig::default();
    let ranked = rank_candidates("fn", &candidates, &config);
    assert_eq!(ranked[0].text, "fn");
    assert_eq!(ranked[0].score, 1000);
}

#[test]
fn test_rank_candidates_stable_on_ties() {
    // both candidates score identically, so input order decides
    let candidates = vec!["xaby", "xabz"];
    let config = HeuristicConfig::default();
    let ranked = rank_candidates("ab", &candidates, &config);
    assert_eq!(ranked.len(), 2);
    assert_eq!(ranked[0].score, ranked[1].score);
    assert_eq!(ranked[0].text, "xaby");
    assert_eq!(ranked[1].text, "xabz");
}

#[test]
fn test_rank_candidates_drops_zero_scores() {
    // an empty candidate scores zero and is dropped
    let candidates = vec!["", "ab"];
    let config = HeuristicConfig::default();
    let ranked = rank_candidates("ab", &candidates, &config);
    assert_eq!(ranked.len(), 1);
    assert_eq!(ranked[0].text, "ab");
}

#[test]
fn test_find_match_positions() {
    let positions = find_match_positions("test", "test case testing");
    assert!(!positions.is_empty());
    // Should find "test" at position 0 and "test" in "testing"
    assert!(positions.len() >= 2);
}

#[test]
fn test_find_match_positions_exact() {
    let positions = find_match_positions("test", "test case testing");
    assert_eq!(positions, vec![(0, 4), (10, 14)]);
}

#[test]
fn test_highlight_matches() {
    let highlighted = highlight_matches("test", "test case", "[", "]");
    assert_eq!(highlighted, "[test] case");

    let highlighted = highlight_matches("a", "banana", "<", ">");
    assert_eq!(highlighted, "b<a>n<a>n<a>");
}

#[test]
fn test_highlight_matches_no_match() {
    let highlighted = highlight_matches("xyz", "abc", "[", "]");
    assert_eq!(highlighted, "abc");
}

#[test]
fn test_highlight_matches_case_insensitive() {
    let highlighted = highlight_matches("TEST", "a Test here", "<", ">");
    assert_eq!(highlighted, "a <Test> here");
}
