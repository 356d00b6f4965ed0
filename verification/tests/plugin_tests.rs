use crossref_rs::plugin::{plugin_search_query, require_email, work_record, RecordValue};
use crossref_rs::{Config, WorkMeta};

#[test]
fn test_work_record_fields_and_order() {
    let w = WorkMeta {
        doi: "10.1000/xyz".to_string(),
        title: Some("A Study".to_string()),
        authors: vec!["Smith, John".to_string(), "Doe, Jane".to_string()],
        year: Some(2021),
        journal: None,
        is_oa: Some(true),
        oa_status: Some("gold".to_string()),
        pdf_url: None,
        ..WorkMeta::default()
    };
    let r = work_record(&w);
    let names: Vec<&str> = r.iter().map(|(k, _)| k.as_str()).collect();
    assert_eq!(
        names,
        vec!["doi", "title", "authors", "year", "journal", "is_oa", "oa_status", "pdf_url"]
    );
    assert!(matches!(&r[0].1, RecordValue::Text(s) if s == "10.1000/xyz"));
    assert!(matches!(&r[1].1, RecordValue::Text(s) if s == "A Study"));
    assert!(matches!(&r[2].1, RecordValue::TextList(l) if l.len() == 2 && l[1] == "Doe, Jane"));
    assert!(matches!(r[3].1, RecordValue::Int(2021)));
    assert!(matches!(r[4].1, RecordValue::Nothing));
    assert!(matches!(r[5].1, RecordValue::Bool(true)));
    assert!(matches!(&r[6].1, RecordValue::Text(s) if s == "gold"));
    assert!(matches!(r[7].1, RecordValue::Nothing));
}

#[test]
fn test_work_record_absent_values_are_nothing() {
    let w = WorkMeta {
        doi: "10.1/a".to_string(),
        ..WorkMeta::default()
    };
    let r = work_record(&w);
    assert_eq!(r.len(), 8);
    assert!(matches!(r[1].1, RecordValue::Nothing));
    assert!(matches!(&r[2].1, RecordValue::TextList(l) if l.is_empty()));
    assert!(matches!(r[3].1, RecordValue::Nothing));
    assert!(matches!(r[5].1, RecordValue::Nothing));
}

#[test]
fn test_require_email_refuses_without_email() {
    let cfg = Config {
        email: None,
        ..Config::default()
    };
    let err = require_email(&cfg).unwrap_err();
    assert!(err.starts_with("No email address configured"));
    assert!(err.contains("CROSSREF_EMAIL"));

    let empty = Config {
        email: Some(String::new()),
        ..Config::default()
    };
    assert!(require_email(&empty).is_err());
}

#[test]
fn test_require_email_accepts_configured_email() {
    let cfg = Config {
        email: Some("me@example.com".to_string()),
        ..Config::default()
    };
    assert!(require_email(&cfg).is_ok());
}

#[test]
fn test_plugin_search_query_defaults() {
    let q = plugin_search_query(None, None, None, None, None, None, None, None, None);
    assert_eq!(q.rows, 10);
    assert!(!q.open_access);
    assert_eq!(q.year_from, None);
    assert_eq!(q.query, None);
}

#[test]
fn test_plugin_search_query_flags() {
    let q = plugin_search_query(
        Some("graphs".to_string()),
        Some("t".to_string()),
        Some("a".to_string()),
        Some(25),
        Some(2019),
        Some(2022),
        Some("journal-article".to_string()),
        Some(true),
        Some("published".to_string()),
    );
    assert_eq!(q.rows, 25);
    assert_eq!(q.year_from, Some(2019));
    assert_eq!(q.year_to, Some(2022));
    assert!(q.open_access);
    assert_eq!(q.work_type.as_deref(), Some("journal-article"));
    assert_eq!(q.sort.as_deref(), Some("published"));
    assert_eq!(q.title.as_deref(), Some("t"));
    assert_eq!(q.author.as_deref(), Some("a"));
}

#[test]
fn test_plugin_search_query_narrows_like_as_casts() {
    let q = plugin_search_query(None, None, None, Some(-1), Some(4_294_967_296 + 7), None, None, None, None);
    assert_eq!(q.rows, u32::MAX);
    assert_eq!(q.year_from, Some(7));
}
