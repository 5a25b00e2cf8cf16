use happ::file_duplicate::FileDuplicateStats;

#[test]
fn duplicate_counts_over_three_files() {
    let mut stats = FileDuplicateStats::new();
    stats.add_file(String::from("a.rs"));
    stats.add_file(String::from("b.rs"));
    stats.add_file(String::from("c.rs"));
    // Two files share one content hash.
    stats.build_hashmap(&vec![11, 11, 22]);
    assert_eq!(stats.total_count(), 3);
    assert_eq!(stats.unique_count(), 2);
    let rate = 1.0 - (stats.unique_count() as f64) / (stats.total_count() as f64);
    assert!(rate >= 0.0 && rate < 1.0);
    assert_eq!(rate, 1.0 - 2.0 / 3.0);
}

#[test]
fn all_distinct_files_have_zero_duplicate_rate() {
    let mut stats = FileDuplicateStats::new();
    stats.add_file(String::from("a.rs"));
    stats.add_file(String::from("b.rs"));
    stats.build_hashmap(&vec![1, 2]);
    assert_eq!(stats.unique_count(), 2);
    let rate = 1.0 - (stats.unique_count() as f64) / (stats.total_count() as f64);
    assert_eq!(rate, 0.0);
}

#[test]
fn second_build_changes_nothing() {
    let mut stats = FileDuplicateStats::new();
    stats.add_file(String::from("a.rs"));
    stats.add_file(String::from("b.rs"));
    stats.build_hashmap(&vec![5, 5]);
    assert_eq!(stats.unique_count(), 1);
    stats.build_hashmap(&vec![5, 5]);
    assert_eq!(stats.unique_count(), 1);
    assert_eq!(stats.total_count(), 2);
}

#[test]
fn no_files_no_hashes() {
    let mut stats = FileDuplicateStats::new();
    assert_eq!(stats.total_count(), 0);
    stats.build_hashmap(&Vec::new());
    assert_eq!(stats.unique_count(), 0);
}
