//! The decisions of the Nushell plugin commands: reading the search flags,
//! refusing to run without a polite email, and the fields of the record a
//! work becomes. The Nushell host glue itself lives outside this library.
use vstd::prelude::*;

use crate::config::Config;
use crate::models::{opt_chars, strings_view, SearchQuery, WorkMeta};

verus! {

/// A value of a plugin record field, as plain values.
#[derive(Debug, Clone)]
pub enum RecordValue {
    Text(String),
    TextList(Vec<String>),
    Int(i64),
    Bool(bool),
    Nothing,
}

/// A field value as plain values: a kind tag (0 text, 1 list, 2 int,
/// 3 bool, 4 nothing), the text, the list, the number and the flag.
pub open spec fn record_value_view(v: RecordValue) -> (int, Seq<char>, Seq<Seq<char>>, int, bool) {
    match v {
        RecordValue::Text(s) => (0, s@, seq![], 0, false),
        RecordValue::TextList(l) => (1, seq![], strings_view(l@), 0, false),
        RecordValue::Int(i) => (2, seq![], seq![], i as int, false),
        RecordValue::Bool(b) => (3, seq![], seq![], 0, b),
        RecordValue::Nothing => (4, seq![], seq![], 0, false),
    }
}

pub open spec fn opt_text_view(o: Option<Seq<char>>) -> (int, Seq<char>, Seq<Seq<char>>, int, bool) {
    match o {
        Some(s) => (0, s, seq![], 0, false),
        None => (4, seq![], seq![], 0, false),
    }
}

/// The record a work becomes: `doi`, `title`, `authors`, `year`, `journal`,
/// `is_oa`, `oa_status`, `pdf_url`, with nothing for absent values.
pub open spec fn work_record_spec(w: WorkMeta) -> Seq<
    (Seq<char>, (int, Seq<char>, Seq<Seq<char>>, int, bool)),
> {
    seq![
        ("doi"@, (0, w.doi@, seq![], 0, false)),
        ("title"@, opt_text_view(opt_chars(w.title))),
        ("authors"@, (1, seq![], strings_view(w.authors@), 0, false)),
        ("year"@, match w.year {
            Some(y) => (2, seq![], seq![], y as int, false),
            None => (4, seq![], seq![], 0, false),
        }),
        ("journal"@, opt_text_view(opt_chars(w.journal))),
        ("is_oa"@, match w.is_oa {
            Some(b) => (3, seq![], seq![], 0, b),
            None => (4, seq![], seq![], 0, false),
        }),
        ("oa_status"@, opt_text_view(opt_chars(w.oa_status))),
        ("pdf_url"@, opt_text_view(opt_chars(w.pdf_url))),
    ]
}

/// The message shown when the plugin has no polite email to use.
pub open spec fn missing_email_message() -> Seq<char> {
    "No email address configured for Crossref polite-pool access. Set CROSSREF_EMAIL env var or add `email = \"you@example.com\"` to ~/.config/crossref.toml."@
}

fn copy_strings(v: &Vec<String>) -> (r: Vec<String>)
    ensures
        strings_view(r@) == strings_view(v@),
{
    let mut r: Vec<String> = Vec::new();
    let mut i: usize = 0;
    while i < v.len()
        invariant
            i <= v@.len(),
            r@.len() == i,
            strings_view(r@) == strings_view(v@).subrange(0, i as int),
        decreases v@.len() - i,
    {
        r.push(v[i].clone());
        assert(strings_view(r@) =~= strings_view(v@).subrange(0, i + 1));
        i = i + 1;
    }
    assert(strings_view(v@).subrange(0, v@.len() as int) =~= strings_view(v@));
    r
}

fn opt_text(o: &Option<String>) -> (r: RecordValue)
    ensures
        record_value_view(r) == opt_text_view(opt_chars(*o)),
{
    match o {
        Some(s) => RecordValue::Text(s.clone()),
        None => RecordValue::Nothing,
    }
}

/// The fields of the record a work becomes in a Nushell pipeline.
pub fn work_record(w: &WorkMeta) -> (r: Vec<(String, RecordValue)>)
    ensures
        r@.map_values(
            |p: (String, RecordValue)| (p.0@, record_value_view(p.1)),
        ) == work_record_spec(*w),
{
    let mut r: Vec<(String, RecordValue)> = Vec::new();
    r.push(("doi".to_owned(), RecordValue::Text(w.doi.clone())));
    r.push(("title".to_owned(), opt_text(&w.title)));
    r.push(("authors".to_owned(), RecordValue::TextList(copy_strings(&w.authors))));
    let year = match w.year {
        Some(y) => RecordValue::Int(y as i64),
        None => RecordValue::Nothing,
    };
    r.push(("year".to_owned(), year));
    r.push(("journal".to_owned(), opt_text(&w.journal)));
    let is_oa = match w.is_oa {
        Some(b) => RecordValue::Bool(b),
        None => RecordValue::Nothing,
    };
    r.push(("is_oa".to_owned(), is_oa));
    r.push(("oa_status".to_owned(), opt_text(&w.oa_status)));
    r.push(("pdf_url".to_owned(), opt_text(&w.pdf_url)));
    assert(r@.map_values(|p: (String, RecordValue)| (p.0@, record_value_view(p.1)))
        =~= work_record_spec(*w));
    r
}

/// The plugin runs only with a polite email: `Ok` when one is configured,
/// otherwise the setup message.
pub fn require_email(cfg: &Config) -> (r: Result<(), String>)
    ensures
        cfg.has_email_spec() ==> r is Ok,
        !cfg.has_email_spec() ==> (r matches Err(m) && m@ == missing_email_message()),
{
    if !cfg.has_email() {
        return Err(
            "No email address configured for Crossref polite-pool access. Set CROSSREF_EMAIL env var or add `email = \"you@example.com\"` to ~/.config/crossref.toml.".to_owned(),
        );
    }
    Ok(())
}

/// The search query of the plugin's `crossref search` flags: rows default
/// to 10 and open access to off; integers are narrowed as the plugin does
/// (`as u32`, `as i32`).
pub fn plugin_search_query(
    query: Option<String>,
    title: Option<String>,
    author: Option<String>,
    rows: Option<i64>,
    year_from: Option<i64>,
    year_to: Option<i64>,
    work_type: Option<String>,
    open_access: Option<bool>,
    sort: Option<String>,
) -> (r: SearchQuery)
    ensures
        r.query == query,
        r.title == title,
        r.author == author,
        r.rows == (match rows {
            Some(n) => n as u32,
            None => 10u32,
        }),
        r.year_from == (match year_from {
            Some(y) => Some(y as i32),
            None => None,
        }),
        r.year_to == (match year_to {
            Some(y) => Some(y as i32),
            None => None,
        }),
        r.work_type == work_type,
        r.open_access == (match open_access {
            Some(b) => b,
            None => false,
        }),
        r.sort == sort,
{
    let rows: u32 = match rows {
        Some(n) => n as u32,
        None => 10,
    };
    let year_from: Option<i32> = match year_from {
        Some(y) => Some(y as i32),
        None => None,
    };
    let year_to: Option<i32> = match year_to {
        Some(y) => Some(y as i32),
        None => None,
    };
    let open_access = match open_access {
        Some(b) => b,
        None => false,
    };
    SearchQuery { query, title, author, year_from, year_to, work_type, open_access, rows, sort }
}

/// The record of a work names its fields `doi`, `title`, `authors`, `year`,
/// `journal`, `is_oa`, `oa_status`, `pdf_url`, in that order, each holding
/// the work's own value: text for the DOI, every author in order as a list,
/// the year as an integer, the OA flag as a boolean, and nothing for an
/// absent value.
pub proof fn lemma_work_record_fields(w: WorkMeta)
    ensures
        work_record_spec(w).len() == 8,
        work_record_spec(w)[0] == ("doi"@, (0int, w.doi@, Seq::<Seq<char>>::empty(), 0int, false)),
        work_record_spec(w)[1].0 == "title"@,
        work_record_spec(w)[1].1 == (match w.title {
            Some(t) => (0int, t@, Seq::<Seq<char>>::empty(), 0int, false),
            None => (4int, Seq::<char>::empty(), Seq::<Seq<char>>::empty(), 0int, false),
        }),
        work_record_spec(w)[2] == ("authors"@, (1int, Seq::<char>::empty(), w.authors@.map_values(
            |a: String| a@,
        ), 0int, false)),
        work_record_spec(w)[3].0 == "year"@,
        work_record_spec(w)[3].1 == (match w.year {
            Some(y) => (2int, Seq::<char>::empty(), Seq::<Seq<char>>::empty(), y as int, false),
            None => (4int, Seq::<char>::empty(), Seq::<Seq<char>>::empty(), 0int, false),
        }),
        work_record_spec(w)[4].0 == "journal"@,
        work_record_spec(w)[4].1 == (match w.journal {
            Some(t) => (0int, t@, Seq::<Seq<char>>::empty(), 0int, false),
            None => (4int, Seq::<char>::empty(), Seq::<Seq<char>>::empty(), 0int, false),
        }),
        work_record_spec(w)[5].0 == "is_oa"@,
        work_record_spec(w)[5].1 == (match w.is_oa {
            Some(b) => (3int, Seq::<char>::empty(), Seq::<Seq<char>>::empty(), 0int, b),
            None => (4int, Seq::<char>::empty(), Seq::<Seq<char>>::empty(), 0int, false),
        }),
        work_record_spec(w)[6].0 == "oa_status"@,
        work_record_spec(w)[6].1 == (match w.oa_status {
            Some(t) => (0int, t@, Seq::<Seq<char>>::empty(), 0int, false),
            None => (4int, Seq::<char>::empty(), Seq::<Seq<char>>::empty(), 0int, false),
        }),
        work_record_spec(w)[7].0 == "pdf_url"@,
        work_record_spec(w)[7].1 == (match w.pdf_url {
            Some(t) => (0int, t@, Seq::<Seq<char>>::empty(), 0int, false),
            None => (4int, Seq::<char>::empty(), Seq::<Seq<char>>::empty(), 0int, false),
        }),
{
    assert(strings_view(w.authors@) =~= w.authors@.map_values(|a: String| a@));
}

/// The plugin refuses to run exactly when no non-empty email is configured.
pub proof fn lemma_require_email_law(cfg: Config)
    ensures
        cfg.has_email_spec() == (cfg.email is Some && cfg.email.unwrap()@.len() > 0),
{
}

} // verus!
