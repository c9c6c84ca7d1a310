use fluid_search::search_mode::SearchMode;

#[test]
fn test_search_mode_validation() {
    assert_eq!(SearchMode::from_str("fluid").unwrap(), SearchMode::Fluid);
    assert_eq!(SearchMode::from_str("original").unwrap(), SearchMode::Original);
    assert_eq!(SearchMode::from_str("FLUID").unwrap(), SearchMode::Fluid);
    assert!(SearchMode::from_str("invalid").is_err());
}

#[test]
fn test_search_mode_error_carries_input() {
    assert_eq!(SearchMode::from_str("xyz"), Err("xyz".to_string()));
}

#[test]
fn test_search_mode_round_trip() {
    assert_eq!(SearchMode::Original.as_str(), "original");
    assert_eq!(SearchMode::Fluid.as_str(), "fluid");
    assert_eq!(SearchMode::from_str(SearchMode::Fluid.as_str()).unwrap(), SearchMode::Fluid);
    assert_eq!(SearchMode::default(), SearchMode::Fluid);
}
