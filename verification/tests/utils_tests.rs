use crossref_rs::models::WorkMeta;
use crossref_rs::utils::{
    capitalise_first, generate_citation_key, generate_citation_key_by_style,
    generate_short_title_key, normalise_doi,
    resolve_key_conflict, KeyStyle,
};

#[test]
fn test_normalise_doi_strips_url() {
    assert_eq!(
        normalise_doi("https://doi.org/10.1234/test"),
        "10.1234/test"
    );
    assert_eq!(normalise_doi("10.1234/test"), "10.1234/test");
    assert_eq!(normalise_doi("doi:10.1234/test"), "10.1234/test");
}

#[test]
fn test_generate_citation_key_single_author() {
    let authors = vec!["Smith, John".to_string()];
    assert_eq!(generate_citation_key(&authors, Some(2024)), "Smith2024");
}

#[test]
fn test_generate_citation_key_two_authors() {
    let authors = vec!["Smith, John".to_string(), "Jones, Alice".to_string()];
    assert_eq!(generate_citation_key(&authors, Some(2024)), "SmithJones2024");
}

#[test]
fn test_resolve_key_conflict() {
    let existing = vec!["Smith2024".to_string(), "Smith2024a".to_string()];
    assert_eq!(resolve_key_conflict("Smith2024", &existing), "Smith2024b");
}

#[test]
fn test_resolve_key_conflict_beyond_z() {
    // Build a list with all single-letter suffixes occupied
    let mut existing = vec!["Smith2024".to_string()];
    for c in b'a'..=b'z' {
        existing.push(format!("Smith2024{}", c as char));
    }
    // Should fall back to two-letter suffix "aa"
    assert_eq!(resolve_key_conflict("Smith2024", &existing), "Smith2024aa");
}

#[test]
fn test_short_title_key_style() {
    let work = WorkMeta {
        doi: "10.1234/ml".to_string(),
        title: Some("Machine Learning in Practice".to_string()),
        authors: vec!["Smith, John".to_string()],
        year: Some(2024),
        ..WorkMeta::default()
    };
    let key = generate_citation_key_by_style(&work, &KeyStyle::ShortTitle);
    // "Machine", "Learning", "Practice" (stop words: "in")
    assert_eq!(key, "MachineLearningPractice2024");
}

#[test]
fn test_short_title_key_strips_stop_words() {
    let work = WorkMeta {
        doi: "10.1234/a".to_string(),
        title: Some("The Role of AI in the Future".to_string()),
        authors: vec![],
        year: Some(2020),
        ..WorkMeta::default()
    };
    let key = generate_citation_key_by_style(&work, &KeyStyle::ShortTitle);
    // Stop words removed: "The", "of", "in", "the"
    // Remaining: "Role", "AI", "Future" (only 3 significant words)
    assert_eq!(key, "RoleAIFuture2020");
}

#[test]
fn test_author_year_key_style() {
    let work = WorkMeta {
        doi: "10.1234/t".to_string(),
        title: Some("Some Title".to_string()),
        authors: vec!["Smith, John".to_string()],
        year: Some(2024),
        ..WorkMeta::default()
    };
    let key = generate_citation_key_by_style(&work, &KeyStyle::AuthorYear);
    assert_eq!(key, "Smith2024");
}

// ─── Further cases ────────────────────────────────────────────────────────────

#[test]
fn test_normalise_doi_trims_and_strips_repeated_prefixes() {
    assert_eq!(normalise_doi("  http://dx.doi.org/10.5555/x \n"), "10.5555/x");
    assert_eq!(normalise_doi("https://doi.org/https://doi.org/10.1/a"), "10.1/a");
    assert_eq!(normalise_doi("http://doi.org/10.1/b"), "10.1/b");
    assert_eq!(normalise_doi("https://dx.doi.org/10.1/c"), "10.1/c");
    // prefixes are stripped in a fixed order, once per kind
    assert_eq!(normalise_doi("doi:https://doi.org/10.1/d"), "https://doi.org/10.1/d");
    assert_eq!(normalise_doi(""), "");
}

#[test]
fn test_generate_citation_key_without_authors_is_unknown() {
    let authors: Vec<String> = vec![];
    assert_eq!(generate_citation_key(&authors, Some(1999)), "Unknown1999");
    assert_eq!(generate_citation_key(&authors, None), "Unknown");
}

#[test]
fn test_generate_citation_key_uses_first_two_authors_only() {
    let authors = vec![
        "smith, john".to_string(),
        " ,Nobody".to_string(),
        "Third, Person".to_string(),
    ];
    // the second author's family name is empty and skipped; the third is never read
    assert_eq!(generate_citation_key(&authors, None), "Smith");
}

#[test]
fn test_generate_citation_key_negative_year() {
    let authors = vec!["Plato".to_string()];
    assert_eq!(generate_citation_key(&authors, Some(-380)), "Plato-380");
    assert_eq!(generate_citation_key(&authors, Some(0)), "Plato0");
}

#[test]
fn test_resolve_key_conflict_free_base_is_kept() {
    let existing = vec!["Other2020".to_string()];
    assert_eq!(resolve_key_conflict("Smith2024", &existing), "Smith2024");
}

#[test]
fn test_resolve_key_conflict_three_letters_when_two_are_taken() {
    let mut existing = vec!["K".to_string()];
    for c1 in b'a'..=b'z' {
        existing.push(format!("K{}", c1 as char));
        for c2 in b'a'..=b'z' {
            existing.push(format!("K{}{}", c1 as char, c2 as char));
        }
    }
    assert_eq!(resolve_key_conflict("K", &existing), "Kaaa");
    existing.push("Kaaa".to_string());
    existing.push("K_conflict".to_string());
    assert_eq!(resolve_key_conflict("K", &existing), "Kaab");
    existing.retain(|k| k != "Kzz");
    assert_eq!(resolve_key_conflict("K", &existing), "Kzz");
}

#[test]
fn test_capitalise_first() {
    assert_eq!(capitalise_first("hello".to_string()), "Hello");
    assert_eq!(capitalise_first(String::new()), "");
    assert_eq!(capitalise_first("ßtraße".to_string()), "SStraße");
}

#[test]
fn test_short_title_unicode_and_punctuation() {
    let work = WorkMeta {
        title: Some("On the (Über-)Theory: of Everything!".to_string()),
        year: Some(2001),
        ..WorkMeta::default()
    };
    let key = generate_citation_key_by_style(&work, &KeyStyle::ShortTitle);
    assert_eq!(key, "ÜberTheoryEverything2001");
}

#[test]
fn test_generate_short_title_key_direct() {
    let w = WorkMeta {
        title: Some("The Art of Computer Programming, Volume 1".to_string()),
        year: Some(1968),
        ..WorkMeta::default()
    };
    assert_eq!(generate_short_title_key(&w), "ArtComputerProgrammingVolume1968");
    let none = WorkMeta { title: Some("of the and".to_string()), year: None, ..WorkMeta::default() };
    assert_eq!(generate_short_title_key(&none), "Unknown");
}
