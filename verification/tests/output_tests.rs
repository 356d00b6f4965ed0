use crossref_rs::output::{search_summary, work_table};
use crossref_rs::WorkMeta;

#[test]
fn test_work_table_full() {
    let w = WorkMeta {
        doi: "10.1/x".to_string(),
        title: Some("On Graphs".to_string()),
        authors: vec!["Smith, J".to_string(), "Doe, A".to_string()],
        year: Some(2020),
        journal: Some("J. Graphs".to_string()),
        ..WorkMeta::default()
    };
    assert_eq!(
        work_table(&w),
        "DOI:       10.1/x\nTitle:     On Graphs\nAuthors:   Smith, J; Doe, A\nYear:      2020\nJournal:   J. Graphs\n\n"
    );
}

#[test]
fn test_work_table_only_doi() {
    let w = WorkMeta {
        doi: "10.1/y".to_string(),
        ..WorkMeta::default()
    };
    assert_eq!(work_table(&w), "DOI:       10.1/y\n\n");
}

#[test]
fn test_work_table_negative_year() {
    let w = WorkMeta {
        doi: "d".to_string(),
        year: Some(-44),
        ..WorkMeta::default()
    };
    assert_eq!(work_table(&w), "DOI:       d\nYear:      -44\n\n");
}

#[test]
fn test_search_summary() {
    assert_eq!(search_summary(12345, 10), "Found 12345 results (showing 10):");
    assert_eq!(search_summary(0, 0), "Found 0 results (showing 0):");
    assert_eq!(
        search_summary(u64::MAX, 3),
        "Found 18446744073709551615 results (showing 3):"
    );
}
