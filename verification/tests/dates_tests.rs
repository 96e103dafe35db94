use hotspot::dates::commit_qualifies;
use hotspot::dates::parse_date;
use hotspot::dates::parse_window;
use hotspot::errors::AnalysisError;

#[test]
fn test_parse_date_none() {
    let result = parse_date(None).unwrap();
    assert!(result.is_none());
}

#[test]
fn test_parse_date_valid() {
    let result = parse_date(Some("2024-01-15")).unwrap();
    assert!(result.is_some());
    assert_eq!(result.unwrap(), 1705276800);
}

#[test]
fn test_parse_date_invalid() {
    let result = parse_date(Some("invalid-date"));
    assert!(result.is_err());
    assert_eq!(result.unwrap_err(), AnalysisError::InvalidDate);
}

#[test]
fn test_parse_date_rejects_bad_calendar_day() {
    assert!(parse_date(Some("2023-02-29")).is_err());
    assert!(parse_date(Some("2024-02-29")).is_ok());
    assert!(parse_date(Some("2024-13-01")).is_err());
}

#[test]
fn test_parse_window_fails_fast_on_bad_bound() {
    assert!(parse_window(Some("2024-01-01"), Some("2024-06-30")).is_ok());
    assert_eq!(
        parse_window(Some("nonsense"), None).unwrap_err(),
        AnalysisError::InvalidDate
    );
    assert_eq!(
        parse_window(None, Some("nonsense")).unwrap_err(),
        AnalysisError::InvalidDate
    );
    assert_eq!(parse_window(None, None).unwrap(), (None, None));
}

#[test]
fn test_window_bounds_are_inclusive() {
    let since = Some(1000i64);
    let until = Some(2000i64);
    assert!(commit_qualifies(1, 1000, since, until));
    assert!(commit_qualifies(1, 2000, since, until));
    assert!(commit_qualifies(1, 1500, since, until));
    assert!(!commit_qualifies(1, 999, since, until));
    assert!(!commit_qualifies(1, 2001, since, until));
    assert!(commit_qualifies(1, i64::MIN, None, None));
}

#[test]
fn test_root_commits_never_qualify() {
    // A history consisting solely of one root commit yields an entirely
    // empty accumulator: the root commit is gated out before any diff.
    assert!(!commit_qualifies(0, 1234567890, None, None));
    assert!(!commit_qualifies(0, 1234567890, Some(0), Some(i64::MAX)));

    let metrics = hotspot::metrics::GitMetrics::new();
    if commit_qualifies(0, 1234567890, None, None) {
        unreachable!();
    }
    assert!(metrics.is_empty());
}

#[test]
fn test_error_messages() {
    assert_eq!(
        AnalysisError::InvalidDate.message(),
        "invalid date, use the format YYYY-MM-DD"
    );
    assert_eq!(AnalysisError::RepositoryOpen.message(), "failed to open repository");
    assert_eq!(AnalysisError::CommitRead.message(), "failed to read commit history");
}
