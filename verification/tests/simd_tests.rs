use fluid_search::simd::{SimdCaseInsensitiveMatcher, SimdMatcher};

#[test]
fn test_simd_single_byte() {
    let text = b"hello world hello";
    let positions = SimdMatcher::find_all(b"h", text);
    assert_eq!(positions, vec![0, 12]);
}

#[test]
fn test_simd_multi_byte() {
    let text = b"hello world hello";
    let positions = SimdMatcher::find_all(b"hello", text);
    assert_eq!(positions, vec![0, 12]);
}

#[test]
fn test_simd_no_match() {
    let text = b"hello world";
    let positions = SimdMatcher::find_all(b"xyz", text);
    assert!(positions.is_empty());
}

#[test]
fn test_simd_overlapping() {
    let text = b"aaaa";
    let positions = SimdMatcher::find_all(b"aa", text);
    assert_eq!(positions, vec![0, 1, 2]);
}

#[test]
fn test_case_insensitive() {
    let text = b"Hello World HELLO";
    let positions = SimdCaseInsensitiveMatcher::find_all(b"hello", text);
    assert_eq!(positions, vec![0, 12]);
}

#[test]
fn test_empty_pattern() {
    let text = b"hello";
    let positions = SimdMatcher::find_all(b"", text);
    assert!(positions.is_empty());
}

#[test]
fn test_empty_text() {
    let positions = SimdMatcher::find_all(b"hello", b"");
    assert!(positions.is_empty());
}

#[test]
fn test_simd_pattern_longer_than_text() {
    let positions = SimdMatcher::find_all(b"hello", b"he");
    assert!(positions.is_empty());
}
