use crossref_rs::bibtex::{
    bib_file_appends, existing_keys_and_dois, keys_and_dois_of, parse_entry_keys, plan_bib_append, records_to_bibtex,
    work_to_bib_record, work_to_bib_record_with_style, work_type_to_bib_type,
};
use crossref_rs::models::{BibRecord, WorkMeta};
use crossref_rs::utils::KeyStyle;

fn sample_work() -> WorkMeta {
    WorkMeta {
        doi: "10.1234/test".to_string(),
        title: Some("A Test Article".to_string()),
        authors: vec!["Smith, John".to_string()],
        year: Some(2024),
        journal: Some("Journal of Testing".to_string()),
        work_type: Some("journal-article".to_string()),
        ..WorkMeta::default()
    }
}

fn make_work(doi: &str, author_family: &str, year: i32, title: &str) -> WorkMeta {
    WorkMeta {
        doi: doi.to_string(),
        title: Some(title.to_string()),
        authors: vec![format!("{}, Test", author_family)],
        year: Some(year),
        work_type: Some("journal-article".to_string()),
        journal: Some("Test Journal".to_string()),
        ..WorkMeta::default()
    }
}

fn field<'a>(record: &'a BibRecord, name: &str) -> &'a str {
    record.get_field(name).unwrap().as_str()
}

#[test]
fn test_work_to_bib_record_fields() {
    let work = sample_work();
    let record = work_to_bib_record(&work);
    assert_eq!(record.entry_type, "article");
    assert_eq!(record.entry_key, "Smith2024");
    assert_eq!(field(&record, "title"), "A Test Article");
    assert_eq!(field(&record, "doi"), "10.1234/test");
}

#[test]
fn test_parse_entry_keys() {
    let bib = "@article{Smith2024,\n  title = {Test},\n  year = {2024},\n}\n";
    let keys = parse_entry_keys(bib);
    assert_eq!(keys, vec!["Smith2024"]);
}

#[test]
fn test_work_to_bib_record_short_title_style() {
    let work = sample_work();
    let record = work_to_bib_record_with_style(&work, &KeyStyle::ShortTitle);
    // Title: "A Test Article" → stop word "A" removed → "Test", "Article"
    assert_eq!(record.entry_key, "TestArticle2024");
}

#[test]
fn test_author_year_style_produces_correct_key() {
    let work = make_work("10.1/a", "Johnson", 2022, "Some Title");
    let record = work_to_bib_record(&work);
    assert_eq!(record.entry_key, "Johnson2022");
}

#[test]
fn test_short_title_style_produces_correct_key() {
    let work = make_work("10.1/b", "Johnson", 2022, "Deep Learning Methods");
    let record = work_to_bib_record_with_style(&work, &KeyStyle::ShortTitle);
    // "Deep", "Learning", "Methods" (no stop words)
    assert_eq!(record.entry_key, "DeepLearningMethods2022");
}

#[test]
fn test_short_title_strips_stop_words() {
    let work = make_work("10.1/c", "Lee", 2021, "A Study of the Brain");
    let record = work_to_bib_record_with_style(&work, &KeyStyle::ShortTitle);
    // "A" and "of" and "the" are stop words → "Study", "Brain"
    assert_eq!(record.entry_key, "StudyBrain2021");
}

#[test]
fn test_short_title_max_four_words() {
    let work = make_work(
        "10.1/d",
        "Park",
        2020,
        "Word1 Word2 Word3 Word4 Word5 Word6",
    );
    let record = work_to_bib_record_with_style(&work, &KeyStyle::ShortTitle);
    assert_eq!(record.entry_key, "Word1Word2Word3Word42020");
}

#[test]
fn test_short_title_no_title_falls_back_to_unknown() {
    let work = WorkMeta {
        doi: "10.1/e".to_string(),
        title: None,
        year: Some(2019),
        ..WorkMeta::default()
    };
    let record = work_to_bib_record_with_style(&work, &KeyStyle::ShortTitle);
    assert_eq!(record.entry_key, "Unknown2019");
}

#[test]
fn test_bib_record_fields_populated() {
    let work = WorkMeta {
        doi: "10.1234/test".to_string(),
        title: Some("My Article".to_string()),
        authors: vec!["Smith, Jane".to_string(), "Doe, John".to_string()],
        year: Some(2024),
        journal: Some("Nature".to_string()),
        volume: Some("42".to_string()),
        issue: Some("3".to_string()),
        pages: Some("1-10".to_string()),
        publisher: Some("Springer".to_string()),
        work_type: Some("journal-article".to_string()),
        ..WorkMeta::default()
    };
    let record = work_to_bib_record(&work);
    assert_eq!(record.entry_type, "article");
    assert_eq!(field(&record, "title"), "My Article");
    assert_eq!(field(&record, "author"), "Smith, Jane and Doe, John");
    assert_eq!(field(&record, "year"), "2024");
    assert_eq!(field(&record, "journal"), "Nature");
    assert_eq!(field(&record, "volume"), "42");
    assert_eq!(field(&record, "number"), "3");
    assert_eq!(field(&record, "pages"), "1-10");
    assert_eq!(field(&record, "publisher"), "Springer");
    assert_eq!(field(&record, "doi"), "10.1234/test");
}

#[test]
fn test_work_type_mapping() {
    let types = vec![
        ("journal-article", "article"),
        ("book", "book"),
        ("monograph", "book"),
        ("book-chapter", "inbook"),
        ("proceedings-article", "inproceedings"),
        ("dissertation", "phdthesis"),
        ("report", "techreport"),
        ("unknown-type", "misc"),
    ];
    for (work_type, expected_bib_type) in types {
        let work = WorkMeta {
            doi: "10.1/x".to_string(),
            work_type: Some(work_type.to_string()),
            authors: vec!["Author, A".to_string()],
            year: Some(2020),
            ..WorkMeta::default()
        };
        let record = work_to_bib_record(&work);
        assert_eq!(
            record.entry_type, expected_bib_type,
            "work_type={work_type} should map to {expected_bib_type}"
        );
    }
}

#[test]
fn test_records_to_bibtex_serialises_correctly() {
    let work = make_work("10.1/s", "Serialise", 2023, "Serialise Test");
    let record = work_to_bib_record(&work);
    let bib = records_to_bibtex(&[record]).unwrap();
    assert!(bib.contains("@article{Serialise2023"));
    assert!(bib.contains("doi = {10.1/s}"));
}

// ─── Further cases ────────────────────────────────────────────────────────────

#[test]
fn test_fields_are_in_name_order_and_minimal() {
    let work = WorkMeta { doi: "10.9/z".to_string(), ..WorkMeta::default() };
    let record = work_to_bib_record(&work);
    assert_eq!(record.entry_type, "misc");
    assert_eq!(record.entry_key, "Unknown");
    let names: Vec<&str> = record.fields.iter().map(|(k, _)| k.as_str()).collect();
    assert_eq!(names, vec!["doi"]);

    let full = work_to_bib_record(&make_work("10.1/o", "Order", 2000, "T"));
    let names: Vec<&str> = full.fields.iter().map(|(k, _)| k.as_str()).collect();
    assert_eq!(names, vec!["author", "doi", "journal", "title", "year"]);
    assert!(full.get_field("pages").is_none());
}

#[test]
fn test_records_to_bibtex_exact_text() {
    let record = work_to_bib_record(&make_work("10.1/e", "Exact", 2021, "Title"));
    let bib = records_to_bibtex(&[record]).unwrap();
    assert_eq!(
        bib,
        "@article{Exact2021,\n  author = {Exact, Test},\n  doi = {10.1/e},\n  journal = {Test Journal},\n  title = {Title},\n  year = {2021},\n}\n"
    );
}

#[test]
fn test_existing_keys_and_dois() {
    let bib = "@article{A2020,\n  doi = {10.1/a},\n}\n\n@book{B2021,\n  title = {No DOI},\n}\n";
    let (keys, dois) = existing_keys_and_dois(bib);
    assert_eq!(keys, vec!["A2020", "B2021"]);
    assert_eq!(dois, vec!["10.1/a"]);
}

#[test]
fn test_plan_append_skips_known_doi() {
    let record = work_to_bib_record(&make_work("10.1234/alpha", "Alpha", 2020, "Alpha Paper"));
    let first = plan_bib_append(vec![], vec![], &[record.clone()]);
    assert_eq!(first.len(), 1);
    assert_eq!(first[0].entry_key, "Alpha2020");
    let second = plan_bib_append(
        vec!["Alpha2020".to_string()],
        vec!["10.1234/alpha".to_string()],
        &[record],
    );
    assert!(second.is_empty(), "a known DOI is not appended again");
}

#[test]
fn test_plan_append_resolves_conflicts_within_batch_and_file() {
    let a = work_to_bib_record(&make_work("10.1/x1", "Brown", 2023, "First Paper"));
    let b = work_to_bib_record(&make_work("10.1/x2", "Brown", 2023, "Second Paper"));
    let dup = work_to_bib_record(&make_work("10.1/x1", "Brown", 2023, "First Paper"));
    let planned = plan_bib_append(vec![], vec![], &[a.clone(), b.clone(), dup]);
    let keys: Vec<&str> = planned.iter().map(|r| r.entry_key.as_str()).collect();
    assert_eq!(keys, vec!["Brown2023", "Brown2023a"]);

    let later = plan_bib_append(vec!["Brown2023".to_string()], vec!["10.1/x1".to_string()], &[b]);
    assert_eq!(later.len(), 1);
    assert_eq!(later[0].entry_key, "Brown2023a");
    assert_eq!(later[0].get_field("doi").unwrap(), "10.1/x2");
}

#[test]
fn test_plan_append_records_without_doi_are_kept() {
    let mut r = BibRecord::default();
    r.entry_type = "misc".to_string();
    r.entry_key = "K".to_string();
    let planned = plan_bib_append(vec![], vec![], &[r.clone(), r]);
    let keys: Vec<&str> = planned.iter().map(|r| r.entry_key.as_str()).collect();
    assert_eq!(keys, vec!["K", "Ka"]);
}

#[test]
fn test_keys_and_dois_of_skips_unread_entries() {
    let entries = vec![
        Some((
            "article".to_string(),
            "A1".to_string(),
            vec![("doi".to_string(), "10.1/a".to_string())],
        )),
        None,
        Some(("book".to_string(), "B2".to_string(), vec![("title".to_string(), "T".to_string())])),
    ];
    let (keys, dois) = keys_and_dois_of(&entries);
    assert_eq!(keys, vec!["A1", "B2"]);
    assert_eq!(dois, vec!["10.1/a"]);
}

#[test]
fn test_repeated_append_writes_nothing() {
    let a = work_to_bib_record(&make_work("10.1/r1", "Lee", 2019, "One"));
    let b = work_to_bib_record(&make_work("10.1/r2", "Lee", 2019, "Two"));
    let first = plan_bib_append(vec![], vec![], &[a.clone(), b.clone()]);
    assert_eq!(first.len(), 2);
    let keys: Vec<String> = first.iter().map(|r| r.entry_key.clone()).collect();
    let dois: Vec<String> = first.iter().map(|r| r.get_field("doi").unwrap().clone()).collect();
    let second = plan_bib_append(keys, dois, &[a, b]);
    assert!(second.is_empty());
}

#[test]
fn test_planned_records_keep_type_and_fields() {
    let a = work_to_bib_record(&make_work("10.1/p1", "Kim", 2020, "Alpha"));
    let planned = plan_bib_append(vec!["Kim2020".to_string()], vec![], &[a.clone()]);
    assert_eq!(planned.len(), 1);
    assert_eq!(planned[0].entry_type, a.entry_type);
    assert_eq!(planned[0].fields, a.fields);
    assert_eq!(planned[0].entry_key, "Kim2020a");
    assert!(planned[0].entry_key.starts_with(&a.entry_key));
}

#[test]
fn test_unlisted_work_types_map_to_misc() {
    for work_type in ["proceedings", "report-component", "dataset"] {
        let work = WorkMeta {
            doi: "10.1/x".to_string(),
            work_type: Some(work_type.to_string()),
            ..WorkMeta::default()
        };
        assert_eq!(work_to_bib_record(&work).entry_type, "misc");
    }
}

#[test]
fn test_bib_file_appends_to_absent_file() {
    let a = work_to_bib_record(&make_work("10.1/f1", "Ng", 2021, "One"));
    let chunks = bib_file_appends(None, &[a.clone()]);
    assert_eq!(chunks.len(), 1);
    let text = chunks[0].as_ref().unwrap();
    assert_eq!(text, &format!("{}\n", records_to_bibtex(&[a]).unwrap()));
    assert_eq!(parse_entry_keys(text), vec!["Ng2021"]);
}

#[test]
fn test_bib_file_appends_against_existing_content() {
    let a = work_to_bib_record(&make_work("10.1/f1", "Ng", 2021, "One"));
    let b = work_to_bib_record(&make_work("10.1/f2", "Ng", 2021, "Two"));
    let first = bib_file_appends(None, &[a.clone()]);
    let content = first[0].as_ref().unwrap().clone();
    let second = bib_file_appends(Some(&content), &[a.clone(), b]);
    assert_eq!(second.len(), 1, "the known DOI is skipped");
    let added = second[0].as_ref().unwrap();
    assert_eq!(parse_entry_keys(added), vec!["Ng2021a"]);
    let again = bib_file_appends(Some(&format!("{content}{added}")), &[a]);
    assert!(again.is_empty());
}

#[test]
fn test_has_ordered_fields() {
    let r = work_to_bib_record(&sample_work());
    assert!(r.has_ordered_fields());
    let mut unsorted = BibRecord::default();
    unsorted.fields = vec![
        ("title".to_string(), "T".to_string()),
        ("doi".to_string(), "10.1/x".to_string()),
    ];
    assert!(!unsorted.has_ordered_fields());
    let mut repeated = BibRecord::default();
    repeated.fields = vec![
        ("doi".to_string(), "a".to_string()),
        ("doi".to_string(), "b".to_string()),
    ];
    assert!(!repeated.has_ordered_fields());
    assert!(BibRecord::default().has_ordered_fields());
}

#[test]
fn test_work_type_to_bib_type_direct() {
    assert_eq!(work_type_to_bib_type(Some("journal-article")), "article");
    assert_eq!(work_type_to_bib_type(Some("monograph")), "book");
    assert_eq!(work_type_to_bib_type(Some("report")), "techreport");
    assert_eq!(work_type_to_bib_type(Some("report-component")), "misc");
    assert_eq!(work_type_to_bib_type(Some("proceedings")), "misc");
    assert_eq!(work_type_to_bib_type(None), "misc");
}
