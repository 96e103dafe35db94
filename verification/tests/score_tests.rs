use hotspot::metrics::GitMetrics;
use hotspot::score::calculate_scores;
use hotspot::score::truncate_top;
use hotspot::sizes::SizeMap;

#[test]
fn test_calculate_scores_basic() {
    let mut git_metrics = GitMetrics::new();
    let path = "test.rs".to_string();
    git_metrics.add_change(path.clone(), 100, "Alice".to_string());

    let mut complexity_map = SizeMap::new();
    complexity_map.set(path.clone(), 5000);

    let results = calculate_scores(&git_metrics, &complexity_map);

    assert_eq!(results.len(), 1);
    assert_eq!(results[0].churn, 100);
    assert_eq!(results[0].complexity_centi, 5000);
    assert_eq!(results[0].authors, 1);
    assert!(results[0].score_micro > 0);
}

#[test]
fn test_calculate_scores_sorted_by_score() {
    let mut git_metrics = GitMetrics::new();
    let path1 = "low_score.rs".to_string();
    let path2 = "high_score.rs".to_string();

    git_metrics.add_change(path1.clone(), 10, "Alice".to_string());
    git_metrics.add_change(path2.clone(), 100, "Bob".to_string());

    let mut complexity_map = SizeMap::new();
    complexity_map.set(path1.clone(), 1000);
    complexity_map.set(path2.clone(), 10000);

    let results = calculate_scores(&git_metrics, &complexity_map);

    assert!(results[0].score_micro > results[1].score_micro);
    assert_eq!(results[0].path, path2);
}

#[test]
fn test_calculate_scores_multiple_authors_lower_score() {
    let mut git_metrics = GitMetrics::new();
    let path1 = "single_author.rs".to_string();
    let path2 = "multiple_authors.rs".to_string();

    // Same churn for both.
    git_metrics.add_change(path1.clone(), 100, "Alice".to_string());
    git_metrics.add_change(path2.clone(), 40, "Bob".to_string());
    git_metrics.add_change(path2.clone(), 30, "Charlie".to_string());
    git_metrics.add_change(path2.clone(), 30, "Dave".to_string());

    // Same size for both.
    let mut complexity_map = SizeMap::new();
    complexity_map.set(path1.clone(), 5000);
    complexity_map.set(path2.clone(), 5000);

    let results = calculate_scores(&git_metrics, &complexity_map);

    let score1 = results.iter().find(|m| m.path == path1).unwrap().score_micro;
    let score2 = results.iter().find(|m| m.path == path2).unwrap().score_micro;

    assert!(score1 > score2);
    assert!(score2 > 0);
}

#[test]
fn test_calculate_scores_zero_complexity() {
    let mut git_metrics = GitMetrics::new();
    let path = "test.rs".to_string();
    git_metrics.add_change(path.clone(), 100, "Alice".to_string());

    let complexity_map = SizeMap::new();

    let results = calculate_scores(&git_metrics, &complexity_map);

    assert_eq!(results.len(), 1);
    assert_eq!(results[0].complexity_centi, 0);
    assert_eq!(results[0].score_micro, 0);
}

#[test]
fn test_empty_input_yields_empty_ranking() {
    let git_metrics = GitMetrics::new();
    let complexity_map = SizeMap::new();

    let results = calculate_scores(&git_metrics, &complexity_map);
    assert!(results.is_empty());
}

#[test]
fn test_single_commit_scenario() {
    // One non-root commit adds ten lines to a.rs, authored by Alice, and
    // a.rs holds fifty lines of code on disk: the file normalizes to one on
    // both axes, and the one-author penalty gives a score just above 59.
    let mut git_metrics = GitMetrics::new();
    git_metrics.add_change("a.rs".to_string(), 10, "Alice".to_string());

    let mut complexity_map = SizeMap::new();
    complexity_map.set("a.rs".to_string(), 5000);

    let results = calculate_scores(&git_metrics, &complexity_map);
    assert_eq!(results.len(), 1);
    assert_eq!(results[0].churn, 10);
    assert_eq!(results[0].complexity_centi, 5000);
    assert_eq!(results[0].authors, 1);
    assert_eq!(results[0].score_micro, 59061617);

    let fields = hotspot::render::row_fields(&results[0]);
    assert_eq!(fields[4], "59.06");
}

#[test]
fn test_identical_inputs_tie_and_order_is_deterministic() {
    let mut git_metrics = GitMetrics::new();
    git_metrics.add_change("first.rs".to_string(), 50, "Alice".to_string());
    git_metrics.add_change("second.rs".to_string(), 50, "Bob".to_string());

    let mut complexity_map = SizeMap::new();
    complexity_map.set("first.rs".to_string(), 3000);
    complexity_map.set("second.rs".to_string(), 3000);

    let results = calculate_scores(&git_metrics, &complexity_map);
    assert_eq!(results[0].score_micro, results[1].score_micro);
    // Ties keep insertion order.
    assert_eq!(results[0].path, "first.rs");
    assert_eq!(results[1].path, "second.rs");
}

#[test]
fn test_truncate_top_keeps_best_ranked() {
    let mut git_metrics = GitMetrics::new();
    git_metrics.add_change("a.rs".to_string(), 100, "Alice".to_string());
    git_metrics.add_change("b.rs".to_string(), 10, "Bob".to_string());
    git_metrics.add_change("c.rs".to_string(), 50, "Carol".to_string());

    let mut complexity_map = SizeMap::new();
    complexity_map.set("a.rs".to_string(), 5000);
    complexity_map.set("b.rs".to_string(), 5000);
    complexity_map.set("c.rs".to_string(), 5000);

    let mut results = calculate_scores(&git_metrics, &complexity_map);
    truncate_top(&mut results, 2);
    assert_eq!(results.len(), 2);
    assert_eq!(results[0].path, "a.rs");
    assert_eq!(results[1].path, "c.rs");

    truncate_top(&mut results, 10);
    assert_eq!(results.len(), 2);
}
