use hotspot::metrics::GitMetrics;

#[test]
fn test_git_metrics_new() {
    let metrics = GitMetrics::new();
    assert!(metrics.is_empty());
    assert_eq!(metrics.num_files(), 0);
}

#[test]
fn test_git_metrics_add_change() {
    let mut metrics = GitMetrics::new();
    let path = "src/main.rs".to_string();
    metrics.add_change(path.clone(), 10, "Alice".to_string());

    assert_eq!(metrics.churn_of(&path).unwrap(), 10);
    assert_eq!(metrics.author_count_of(&path).unwrap(), 1);
}

#[test]
fn test_git_metrics_add_multiple_changes_same_file() {
    let mut metrics = GitMetrics::new();
    let path = "src/main.rs".to_string();

    metrics.add_change(path.clone(), 10, "Alice".to_string());
    metrics.add_change(path.clone(), 5, "Bob".to_string());

    assert_eq!(metrics.churn_of(&path).unwrap(), 15);
    assert_eq!(metrics.author_count_of(&path).unwrap(), 2);
}

#[test]
fn test_git_metrics_multiple_authors_same_file() {
    let mut metrics = GitMetrics::new();
    let path = "src/main.rs".to_string();

    metrics.add_change(path.clone(), 5, "Alice".to_string());
    metrics.add_change(path.clone(), 3, "Bob".to_string());
    metrics.add_change(path.clone(), 2, "Charlie".to_string());

    assert_eq!(metrics.author_count_of(&path).unwrap(), 3);
}

#[test]
fn test_add_change_commutes_across_call_order() {
    let path = "src/lib.rs".to_string();

    let mut one = GitMetrics::new();
    one.add_change(path.clone(), 10, "Alice".to_string());
    one.add_change(path.clone(), 5, "Bob".to_string());

    let mut other = GitMetrics::new();
    other.add_change(path.clone(), 5, "Bob".to_string());
    other.add_change(path.clone(), 10, "Alice".to_string());

    assert_eq!(one.churn_of(&path).unwrap(), 15);
    assert_eq!(other.churn_of(&path).unwrap(), 15);
    assert_eq!(one.author_count_of(&path).unwrap(), 2);
    assert_eq!(other.author_count_of(&path).unwrap(), 2);
}

#[test]
fn test_repeated_author_counted_once() {
    let mut metrics = GitMetrics::new();
    let path = "src/main.rs".to_string();

    metrics.add_change(path.clone(), 4, "Alice".to_string());
    metrics.add_change(path.clone(), 6, "Alice".to_string());

    assert_eq!(metrics.churn_of(&path).unwrap(), 10);
    assert_eq!(metrics.author_count_of(&path).unwrap(), 1);
}

#[test]
fn test_record_delta_skips_unchanged_files() {
    let mut metrics = GitMetrics::new();

    // A diff entry with no line changes (a pure rename, or binary content
    // without line statistics) is never recorded.
    metrics.record_delta("moved.rs".to_string(), 0, 0, "Alice".to_string());
    assert!(metrics.is_empty());

    metrics.record_delta("a.rs".to_string(), 7, 3, "Alice".to_string());
    assert_eq!(metrics.churn_of(&"a.rs".to_string()).unwrap(), 10);
}

#[test]
fn test_missing_path_has_no_metrics() {
    let mut metrics = GitMetrics::new();
    metrics.add_change("a.rs".to_string(), 1, "Alice".to_string());

    assert!(metrics.churn_of(&"b.rs".to_string()).is_none());
    assert!(metrics.author_count_of(&"b.rs".to_string()).is_none());
}

#[test]
fn test_paths_keep_insertion_order() {
    let mut metrics = GitMetrics::new();
    metrics.add_change("b.rs".to_string(), 1, "Alice".to_string());
    metrics.add_change("a.rs".to_string(), 2, "Bob".to_string());
    metrics.add_change("b.rs".to_string(), 3, "Carol".to_string());

    let paths = metrics.paths();
    assert_eq!(paths, vec!["b.rs".to_string(), "a.rs".to_string()]);
}
