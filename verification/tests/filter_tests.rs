use hotspot::filter::contains_sub;
use hotspot::filter::filter_paths;
use hotspot::filter::path_passes;
use hotspot::sizes::SizeMap;

#[test]
fn test_contains_sub_basics() {
    assert!(contains_sub("src/main.rs", "main"));
    assert!(contains_sub("src/main.rs", "src/main.rs"));
    assert!(contains_sub("src/main.rs", ""));
    assert!(!contains_sub("src/main.rs", "test"));
    assert!(!contains_sub("rs", "main.rs"));
    assert!(contains_sub("caminho/área.rs", "área"));
}

#[test]
fn test_path_passes_empty_filters() {
    let none: Vec<String> = vec![];
    assert!(path_passes(&"anything.rs".to_string(), &none, &none));
}

#[test]
fn test_path_passes_include_requires_match() {
    let includes = vec!["src".to_string(), "lib".to_string()];
    let none: Vec<String> = vec![];
    assert!(path_passes(&"src/a.rs".to_string(), &includes, &none));
    assert!(path_passes(&"mylib/b.rs".to_string(), &includes, &none));
    assert!(!path_passes(&"docs/readme.md".to_string(), &includes, &none));
}

#[test]
fn test_exclude_takes_precedence() {
    let includes = vec!["src".to_string()];
    let excludes = vec!["generated".to_string()];
    assert!(path_passes(&"src/a.rs".to_string(), &includes, &excludes));
    assert!(!path_passes(
        &"src/generated/a.rs".to_string(),
        &includes,
        &excludes
    ));
}

#[test]
fn test_filter_paths_keeps_order() {
    let paths = vec![
        "src/a.rs".to_string(),
        "tests/b.rs".to_string(),
        "src/vendor/c.rs".to_string(),
        "src/d.rs".to_string(),
    ];
    let includes = vec!["src".to_string()];
    let excludes = vec!["vendor".to_string()];
    let kept = filter_paths(&paths, &includes, &excludes);
    assert_eq!(kept, vec!["src/a.rs".to_string(), "src/d.rs".to_string()]);
}

#[test]
fn test_size_map_defaults_to_zero() {
    let mut sizes = SizeMap::new();
    assert_eq!(sizes.len(), 0);
    assert_eq!(sizes.size_or_zero(&"a.rs".to_string()), 0);
    assert_eq!(sizes.max_size_centi(), 0);

    sizes.set("a.rs".to_string(), 5000);
    sizes.set("b.rs".to_string(), 100);
    assert_eq!(sizes.size_or_zero(&"a.rs".to_string()), 5000);
    assert_eq!(sizes.size_or_zero(&"missing.rs".to_string()), 0);
    assert_eq!(sizes.max_size_centi(), 5000);

    // Overwriting replaces the old value instead of adding an entry.
    sizes.set("a.rs".to_string(), 700);
    assert_eq!(sizes.len(), 2);
    assert_eq!(sizes.size_or_zero(&"a.rs".to_string()), 700);
    assert_eq!(sizes.max_size_centi(), 700);
}

#[test]
fn test_cli_defaults() {
    let cli = hotspot::config::Cli::default();
    assert_eq!(cli.repo, ".");
    assert!(cli.since.is_none());
    assert!(cli.until.is_none());
    assert!(cli.includes.is_empty());
    assert!(cli.excludes.is_empty());
    assert_eq!(cli.top, 10);
    assert!(!cli.json);
    assert!(!cli.csv);
    assert!(cli.out.is_none());
}
