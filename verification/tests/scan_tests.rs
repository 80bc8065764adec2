use bms_resource_toolbox::scan::{find_longest_match, sequence_matcher_counts, FolderScanService};

/// The similarity ratio `2 * matches / total` of two names (1 for two
/// empty names), from the counts that the library computes.
fn sequence_matcher_ratio(a: &str, b: &str) -> f64 {
    let (matches, total) = sequence_matcher_counts(a, b);
    if total == 0 {
        return 1.0;
    }
    if a.is_empty() || b.is_empty() {
        return 0.0;
    }
    (2 * matches) as f64 / total as f64
}

#[test]
fn test_sequence_identical() {
    assert!((sequence_matcher_ratio("abc", "abc") - 1.0).abs() < 1e-6);
}

#[test]
fn test_sequence_different() {
    assert!((sequence_matcher_ratio("abc", "xyz") - 0.0).abs() < 1e-6);
}

#[test]
fn test_sequence_partial() {
    let sim = sequence_matcher_ratio("abc", "abd");
    assert!((sim - 2.0 / 3.0).abs() < 1e-6);
}

#[test]
fn test_sequence_both_empty() {
    assert!((sequence_matcher_ratio("", "") - 1.0).abs() < 1e-6);
}

#[test]
fn test_sequence_one_empty() {
    assert!((sequence_matcher_ratio("a", "") - 0.0).abs() < 1e-6);
}

#[test]
fn test_sequence_matcher_ratio_known_values() {
    let r = sequence_matcher_ratio("abc", "abc");
    assert!((r - 1.0).abs() < 1e-6, "identical strings");
    let r = sequence_matcher_ratio("abc", "abd");
    assert!((r - 2.0 / 3.0).abs() < 1e-6, "one char diff");
    let r = sequence_matcher_ratio("abc", "xyz");
    assert!((r - 0.0).abs() < 1e-6, "completely different");
    let r = sequence_matcher_ratio("ab", "ab");
    assert!((r - 1.0).abs() < 1e-6, "short identical");
}

#[test]
fn scan_matching_counts_exact() {
    assert_eq!(sequence_matcher_counts("abc", "abd"), (2, 6));
    assert_eq!(sequence_matcher_counts("abcxdef", "abcydef"), (6, 14));
    assert_eq!(sequence_matcher_counts("", ""), (0, 0));
    let a: Vec<char> = "MySong Hyper".chars().collect();
    assert_eq!(find_longest_match(&a, &a), a.len());
}

#[test]
fn scan_similar_candidates_sorted_neighbours() {
    let service = FolderScanService::new();
    let names = vec!["MySong Hyper".to_string(), "Alpha".to_string(), "MySong Another".to_string()];
    let pairs = service.scan_folder_similar_folders(names);
    assert_eq!(pairs.len(), 2);
    assert_eq!(pairs[0].former, "Alpha");
    assert_eq!(pairs[0].current, "MySong Another");
    assert_eq!(pairs[1].former, "MySong Another");
    assert_eq!(pairs[1].current, "MySong Hyper");
    assert_eq!(pairs[1].total, 26);
    assert!(pairs[1].matches >= 7);
}

#[test]
fn scan_empty_listing() {
    let service = FolderScanService::new();
    assert!(service.scan_folder_similar_folders(Vec::new()).is_empty());
}
