use hotspot::render::format_centi;
use hotspot::render::format_micro;
use hotspot::render::format_u64;
use hotspot::render::markdown_report;
use hotspot::render::report_header;
use hotspot::render::row_fields;
use hotspot::score::FileMetrics;

fn create_test_metrics() -> Vec<FileMetrics> {
    vec![
        FileMetrics {
            path: "src/main.rs".to_string(),
            churn: 100,
            complexity_centi: 5050,
            authors: 3,
            score_micro: 75250000,
        },
        FileMetrics {
            path: "src/lib.rs".to_string(),
            churn: 50,
            complexity_centi: 2530,
            authors: 2,
            score_micro: 40150000,
        },
    ]
}

#[test]
fn test_table_row_from_file_metrics() {
    let metrics = FileMetrics {
        path: "test.rs".to_string(),
        churn: 100,
        complexity_centi: 5050,
        authors: 2,
        score_micro: 75000000,
    };

    let row = row_fields(&metrics);
    assert_eq!(row[0], "test.rs");
    assert_eq!(row[1], "100");
    assert_eq!(row[2], "50.50");
    assert_eq!(row[3], "2");
    assert_eq!(row[4], "75.00");
}

#[test]
fn test_save_markdown() {
    let metrics = create_test_metrics();
    let content = markdown_report(&metrics);

    assert!(content.contains("# Análise de Hotspots"));
    assert!(content.contains("main.rs"));
    assert!(content.contains("lib.rs"));
    assert!(content.contains("|")); // Markdown table syntax
    assert!(content.contains("| src/main.rs | 100 | 50.50 | 3 | 75.25 |"));
}

#[test]
fn test_report_header_columns() {
    let header = report_header();
    assert_eq!(
        header,
        vec!["Arquivo", "Churn", "Complexidade", "Autores", "Score"]
    );
}

#[test]
fn test_decimal_formatting() {
    assert_eq!(format_u64(0), "0");
    assert_eq!(format_u64(7), "7");
    assert_eq!(format_u64(1705276800), "1705276800");
    assert_eq!(format_centi(0), "0.00");
    assert_eq!(format_centi(5), "0.05");
    assert_eq!(format_centi(5050), "50.50");
    assert_eq!(format_centi(10000), "100.00");
}

#[test]
fn test_micro_formatting_rounds_half_up() {
    assert_eq!(format_micro(59061617), "59.06");
    assert_eq!(format_micro(59064999), "59.06");
    assert_eq!(format_micro(59065000), "59.07");
    assert_eq!(format_micro(0), "0.00");
    assert_eq!(format_micro(100000000), "100.00");
}
