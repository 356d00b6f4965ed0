use crossref_rs::client::{
    build_works_query, build_user_agent, classify_search_error, enrich_with_unpaywall, is_pdf,
    map_work, no_pdf_error, pdf_download_urls, pdf_file_name, plan_works_query, unpaywall_url,
    CrossrefContributor, CrossrefWork, SortOrder, next_pdf_step, PdfStep, UnpaywallLocation, UnpaywallRecord,
    WorksFilterPlan,
};
use crossref_rs::models::{SearchQuery, WorkMeta};
use crossref_rs::{Config, CrossrefError};

#[test]
fn test_build_works_query_filters() {
    // Ensure that filter methods on SearchQuery are forwarded to the query
    let q = SearchQuery {
        query: Some("machine learning".to_string()),
        year_from: Some(2020),
        year_to: Some(2023),
        work_type: Some("journal-article".to_string()),
        open_access: true,
        rows: 5u32,
        ..SearchQuery::default()
    };

    let wq = build_works_query(&q);
    assert_eq!(wq.term.as_deref(), Some("machine learning"));
    assert_eq!(wq.rows, 5);
    assert_eq!(wq.filters.len(), 4);
}

#[test]
fn test_build_works_query_no_filters() {
    let q = SearchQuery {
        query: Some("test".to_string()),
        rows: 10u32,
        ..SearchQuery::default()
    };
    let wq = build_works_query(&q);
    assert!(wq.filters.is_empty());
}

// ─── Further cases ────────────────────────────────────────────────────────────

#[test]
fn test_plan_works_query_details() {
    let q = SearchQuery {
        query: Some("deep".to_string()),
        title: Some("nets".to_string()),
        author: Some("LeCun".to_string()),
        year_from: Some(2020),
        year_to: Some(400000),
        work_type: Some("not-a-type".to_string()),
        sort: Some("published".to_string()),
        ..SearchQuery::default()
    };
    let wq = build_works_query(&q);
    assert_eq!(wq.term.as_deref(), Some("deep nets LeCun"));
    assert_eq!(wq.sort, Some(SortOrder::Published));
    assert!(matches!(wq.filters[0], WorksFilterPlan::FromPubDate(2020)));
    // year 400000 is beyond chrono's range, so there is no until-filter
    assert!(matches!(&wq.filters[1], WorksFilterPlan::TypeName(t) if t == "not-a-type"));
    assert_eq!(wq.filters.len(), 2);

    let empty = plan_works_query(&SearchQuery { sort: Some("bogus".to_string()), ..SearchQuery::default() }, true, true, true);
    assert_eq!(empty.term, None);
    assert_eq!(empty.sort, Some(SortOrder::Score));
    assert_eq!(empty.rows, 10);

    let typed = build_works_query(&SearchQuery { work_type: Some("book-chapter".to_string()), ..SearchQuery::default() });
    assert!(matches!(&typed.filters[0], WorksFilterPlan::Type(t) if t == "book-chapter"));
}

#[test]
fn test_is_pdf() {
    assert!(is_pdf(b"%PDF-1.4 fake pdf content"));
    assert!(!is_pdf(b"<html>"));
    assert!(!is_pdf(b"%PDF"));
    assert!(!is_pdf(b""));
}

#[test]
fn test_build_user_agent() {
    let cfg = Config { email: Some("me@example.com".to_string()), ..Config::default() };
    assert_eq!(build_user_agent(&cfg, "0.2.0"), "crossref-rs/0.2.0 (mailto:me@example.com)");
    assert_eq!(build_user_agent(&Config::default(), "0.2.0"), "crossref-rs/0.2.0");
}

#[test]
fn test_unpaywall_url() {
    assert_eq!(
        unpaywall_url(Some("http://localhost/v2"), Some("test@example.com"), " https://doi.org/10.1234/test"),
        "http://localhost/v2/10.1234/test?email=test@example.com"
    );
    assert_eq!(
        unpaywall_url(None, None, "10.1/x"),
        "https://api.unpaywall.org/v2/10.1/x?email=anonymous@example.com"
    );
}

#[test]
fn test_pdf_download_plan() {
    assert_eq!(pdf_file_name("10.1234/a/b"), "10.1234_a_b.pdf");
    assert_eq!(
        pdf_download_urls(Some("https://x/p.pdf"), Some("proxy.edu"), "10.1/y"),
        vec!["https://x/p.pdf".to_string(), "https://proxy.edu/doi/10.1/y".to_string()]
    );
    assert_eq!(pdf_download_urls(None, Some("p"), "d"), vec!["https://p/doi/d".to_string()]);
    assert!(pdf_download_urls(None, None, "d").is_empty());
    match no_pdf_error("10.1/z") {
        CrossrefError::PdfDownload(m) => {
            assert_eq!(m, "no downloadable PDF found; try https://doi.org/10.1/z")
        }
        other => panic!("unexpected {other:?}"),
    }
}

#[test]
fn test_classify_search_error() {
    assert!(matches!(classify_search_error("invalid serde: x".to_string()), CrossrefError::Parse(_)));
    assert!(matches!(classify_search_error("missing field `DOI`".to_string()), CrossrefError::Parse(_)));
    assert!(matches!(classify_search_error("timeout".to_string()), CrossrefError::Api(m) if m == "timeout"));
}

fn sample_crossref_work() -> CrossrefWork {
    CrossrefWork {
        doi: "10.1234/enriched".to_string(),
        title: vec!["A Test Article".to_string(), "Translated".to_string()],
        author: Some(vec![
            CrossrefContributor { family: "Smith".to_string(), given: Some("Test".to_string()) },
            CrossrefContributor { family: "Solo".to_string(), given: None },
        ]),
        issued_date_parts: vec![vec![Some(2021), Some(6), Some(1)]],
        container_title: Some(vec!["Journal of Testing".to_string()]),
        volume: Some("10".to_string()),
        issue: Some("2".to_string()),
        page: Some("1-10".to_string()),
        publisher: "Test Publisher".to_string(),
        type_: "journal-article".to_string(),
    }
}

#[test]
fn test_map_work() {
    let meta = map_work(sample_crossref_work());
    assert_eq!(meta.doi, "10.1234/enriched");
    assert_eq!(meta.title.as_deref(), Some("A Test Article"));
    assert_eq!(meta.authors, vec!["Smith, Test".to_string(), "Solo".to_string()]);
    assert_eq!(meta.year, Some(2021));
    assert_eq!(meta.journal.as_deref(), Some("Journal of Testing"));
    assert_eq!(meta.pages.as_deref(), Some("1-10"));
    assert_eq!(meta.publisher.as_deref(), Some("Test Publisher"));
    assert_eq!(meta.work_type.as_deref(), Some("journal-article"));
    assert_eq!(meta.is_oa, None);

    let mut bare = sample_crossref_work();
    bare.issued_date_parts = vec![vec![None]];
    bare.author = None;
    bare.title = vec![];
    let meta = map_work(bare);
    assert_eq!(meta.year, None);
    assert!(meta.authors.is_empty());
    assert_eq!(meta.title, None);
}

#[test]
fn test_enrich_with_unpaywall() {
    let meta = WorkMeta { doi: "10.1/q".to_string(), ..WorkMeta::default() };
    let rec = UnpaywallRecord {
        is_oa: true,
        oa_status: "gold".to_string(),
        best_oa_location: Some(UnpaywallLocation { url_for_pdf: Some("https://example.com/paper.pdf".to_string()) }),
    };
    let enriched = enrich_with_unpaywall(meta.clone(), Some(rec));
    assert_eq!(enriched.is_oa, Some(true));
    assert_eq!(enriched.oa_status.as_deref(), Some("gold"));
    assert_eq!(enriched.pdf_url.as_deref(), Some("https://example.com/paper.pdf"));
    let untouched = enrich_with_unpaywall(meta, None);
    assert!(untouched.is_oa.is_none(), "OA fields should remain None on Unpaywall failure");
    assert_eq!(untouched.doi, "10.1/q");
}

#[test]
fn test_pdf_steps_keep_the_first_pdf_body() {
    let html: &[u8] = b"<html>landing page</html>";
    let pdf: &[u8] = b"%PDF-1.7 body";
    assert_eq!(next_pdf_step(2, 0, None), PdfStep::Fetch(0));
    assert_eq!(next_pdf_step(2, 1, Some(html)), PdfStep::Fetch(1));
    assert_eq!(next_pdf_step(2, 1, None), PdfStep::Fetch(1));
    assert_eq!(next_pdf_step(2, 1, Some(pdf)), PdfStep::Keep);
    assert_eq!(next_pdf_step(2, 2, Some(pdf)), PdfStep::Keep);
    assert_eq!(next_pdf_step(2, 2, Some(html)), PdfStep::GiveUp);
    assert_eq!(next_pdf_step(0, 0, None), PdfStep::GiveUp);
}

#[test]
fn test_build_works_query_year_range_edges() {
    let q = SearchQuery {
        year_from: Some(-262143),
        year_to: Some(262142),
        work_type: Some("proceedings".to_string()),
        ..SearchQuery::default()
    };
    let wq = build_works_query(&q);
    assert!(matches!(wq.filters[0], WorksFilterPlan::FromPubDate(-262143)));
    assert!(matches!(wq.filters[1], WorksFilterPlan::UntilPubDate(262142)));
    assert!(matches!(&wq.filters[2], WorksFilterPlan::Type(t) if t == "proceedings"));
    let q = SearchQuery {
        year_from: Some(-262144),
        year_to: Some(262143),
        ..SearchQuery::default()
    };
    assert!(build_works_query(&q).filters.is_empty());
}
