//! The decisions of the Crossref / Unpaywall client: mapping Crossref works
//! to metadata, planning search queries, Unpaywall enrichment, request URLs,
//! the PDF download order and error classification. The network calls
//! themselves are made by the application around this library.
use vstd::prelude::*;

use crate::config::Config;
use crate::error::CrossrefError;
use crate::models::{opt_chars, strings_view, SearchQuery, WorkMeta};
use crate::text::{
    append_str, chars_of, join_with, starts_with, starts_with_at, string_of,
};
use crate::utils::{doi_normalised, normalise_doi};

verus! {

/// Unpaywall OA record for a single DOI.
#[derive(Debug)]
pub struct UnpaywallRecord {
    pub is_oa: bool,
    pub oa_status: String,
    /// Best available open-access PDF URL, if any.
    pub best_oa_location: Option<UnpaywallLocation>,
}

#[derive(Debug)]
pub struct UnpaywallLocation {
    pub url_for_pdf: Option<String>,
}

/// A contributor of a Crossref work, as the plain values the mapping reads.
#[derive(Debug, Clone)]
pub struct CrossrefContributor {
    pub family: String,
    pub given: Option<String>,
}

/// A Crossref work, as the plain values the mapping reads: DOI, titles,
/// authors, the `issued` date parts, container titles, volume, issue, page,
/// publisher and type.
#[derive(Debug, Clone)]
pub struct CrossrefWork {
    pub doi: String,
    pub title: Vec<String>,
    pub author: Option<Vec<CrossrefContributor>>,
    pub issued_date_parts: Vec<Vec<Option<u32>>>,
    pub container_title: Option<Vec<String>>,
    pub volume: Option<String>,
    pub issue: Option<String>,
    pub page: Option<String>,
    pub publisher: String,
    pub type_: String,
}

/// Crossref sort orders.
#[derive(Debug, Clone, Copy, PartialEq, Eq, Structural)]
pub enum SortOrder {
    Score,
    Updated,
    Deposited,
    Indexed,
    Published,
}

/// A filter of a works query.
#[derive(Debug, Clone)]
pub enum WorksFilterPlan {
    /// Published on or after January 1 of the year.
    FromPubDate(i32),
    /// Published on or before December 31 of the year.
    UntilPubDate(i32),
    /// A work type that Crossref's type list knows.
    Type(String),
    /// Any other work type name, passed as given.
    TypeName(String),
    /// Has a license (stands for open access).
    HasLicense,
}

/// What a works query asks Crossref for: the free-text term (none for an
/// empty query), the row count, the sort order and the filters, in order.
#[derive(Debug, Clone)]
pub struct WorksQueryPlan {
    pub term: Option<String>,
    pub rows: usize,
    pub sort: Option<SortOrder>,
    pub filters: Vec<WorksFilterPlan>,
}

// ─── Trusted calls ──────────────────────────────────────────────────────────

/// Whether `y` is a leap year of the proleptic Gregorian calendar.
pub open spec fn is_leap_year(y: int) -> bool {
    y % 4 == 0 && (y % 100 != 0 || y % 400 == 0)
}

/// The number of days of month `m` (1 to 12) of year `y`.
pub open spec fn days_in_month(y: int, m: int) -> int {
    if m == 2 {
        if is_leap_year(y) {
            29
        } else {
            28
        }
    } else if m == 4 || m == 6 || m == 9 || m == 11 {
        30
    } else {
        31
    }
}

/// Whether `chrono::NaiveDate::from_ymd_opt(y, m, d)` gives a date: the
/// year lies within chrono's range (-262143 to 262142), the month is 1 to
/// 12 and the day exists in that month.
pub open spec fn calendar_date_exists(y: i32, m: u32, d: u32) -> bool {
    -262143 <= y <= 262142 && 1 <= m <= 12 && 1 <= d <= days_in_month(y as int, m as int)
}

/// The type names `crossref::Type::from_str` accepts.
pub open spec fn crossref_type_names() -> Seq<Seq<char>> {
    seq![
        "book-section"@,
        "monograph"@,
        "report"@,
        "peer-review"@,
        "book-track"@,
        "journal-article"@,
        "book-part"@,
        "other"@,
        "book"@,
        "journal-volume"@,
        "book-set"@,
        "reference-entry"@,
        "proceedings-article"@,
        "journal"@,
        "component"@,
        "book-chapter"@,
        "proceedings-series"@,
        "report-series"@,
        "proceedings"@,
        "standard"@,
        "reference-book"@,
        "posted-content"@,
        "journal-issue"@,
        "dissertation"@,
        "dataset"@,
        "book-series"@,
        "edited-book"@,
        "standard-series"@,
    ]
}

/// Whether `crossref::Type::from_str(s)` succeeds: `s` is one of its names.
pub open spec fn crossref_type_known(s: Seq<char>) -> bool {
    crossref_type_names().contains(s)
}

/// Calls `chrono::NaiveDate::from_ymd_opt` and reports whether it gave a
/// date: exactly for the valid calendar dates within chrono's year range.
#[verifier::external_body]
fn date_exists(y: i32, m: u32, d: u32) -> (r: bool)
    ensures
        r == calendar_date_exists(y, m, d),
{
    chrono::NaiveDate::from_ymd_opt(y, m, d).is_some()
}

/// Calls `crossref::Type::from_str` and reports whether it succeeded:
/// exactly for the names its match lists.
#[verifier::external_body]
fn is_crossref_type(s: &str) -> (r: bool)
    ensures
        r == crossref_type_known(s@),
{
    <crossref::Type as std::str::FromStr>::from_str(s).is_ok()
}

// ─── Specifications ─────────────────────────────────────────────────────────

/// Whether `p` occurs in `s`.
pub open spec fn contains_text(s: Seq<char>, p: Seq<char>) -> bool {
    exists|i: int| 0 <= i <= s.len() - p.len() && #[trigger] s.subrange(i, i + p.len()) == p
}

/// The PDF magic number `%PDF-`.
pub open spec fn pdf_magic() -> Seq<u8> {
    seq![0x25u8, 0x50u8, 0x44u8, 0x46u8, 0x2du8]
}

/// An author as "Family, Given", or "Family" without a given name.
pub open spec fn author_name(c: CrossrefContributor) -> Seq<char> {
    match c.given {
        Some(g) => c.family@ + ", "@ + g@,
        None => c.family@,
    }
}

/// The year of the `issued` date parts: the first part of the first date,
/// when present.
pub open spec fn issued_year(parts: Seq<Vec<Option<u32>>>) -> Option<i32> {
    if parts.len() > 0 && parts[0]@.len() > 0 {
        match parts[0]@[0] {
            Some(y) => Some(y as i32),
            None => None,
        }
    } else {
        None
    }
}

pub open spec fn first_string(v: Seq<String>) -> Option<Seq<char>> {
    if v.len() > 0 {
        Some(v[0]@)
    } else {
        None
    }
}

/// The metadata a Crossref work maps to (no OA data yet).
pub open spec fn work_meta_matches(w: CrossrefWork, m: WorkMeta) -> bool {
    &&& m.doi@ == w.doi@
    &&& opt_chars(m.title) == first_string(w.title@)
    &&& strings_view(m.authors@) == (match w.author {
        Some(a) => a@.map_values(|c: CrossrefContributor| author_name(c)),
        None => seq![],
    })
    &&& m.year == issued_year(w.issued_date_parts@)
    &&& opt_chars(m.journal) == (match w.container_title {
        Some(c) => first_string(c@),
        None => None,
    })
    &&& opt_chars(m.volume) == opt_chars(w.volume)
    &&& opt_chars(m.issue) == opt_chars(w.issue)
    &&& opt_chars(m.pages) == opt_chars(w.page)
    &&& opt_chars(m.publisher) == Some(w.publisher@)
    &&& opt_chars(m.work_type) == Some(w.type_@)
    &&& m.is_oa is None
    &&& m.oa_status is None
    &&& m.pdf_url is None
}

/// The free-text parts of a query: query, title and author, when present.
pub open spec fn term_parts(q: SearchQuery) -> Seq<Seq<char>> {
    (match q.query {
        Some(t) => seq![t@],
        None => seq![],
    }) + (match q.title {
        Some(t) => seq![t@],
        None => seq![],
    }) + (match q.author {
        Some(t) => seq![t@],
        None => seq![],
    })
}

/// The sort order a sort name selects; unknown names select `Score`.
pub open spec fn sort_order_of(s: Seq<char>) -> SortOrder {
    if s == "score"@ {
        SortOrder::Score
    } else if s == "updated"@ {
        SortOrder::Updated
    } else if s == "deposited"@ {
        SortOrder::Deposited
    } else if s == "indexed"@ {
        SortOrder::Indexed
    } else if s == "published"@ {
        SortOrder::Published
    } else {
        SortOrder::Score
    }
}

/// A filter as plain values: a kind tag (0 from-date, 1 until-date, 2 type,
/// 3 type name, 4 has-license), a year and a name.
pub open spec fn filter_view(f: WorksFilterPlan) -> (int, int, Seq<char>) {
    match f {
        WorksFilterPlan::FromPubDate(y) => (0, y as int, seq![]),
        WorksFilterPlan::UntilPubDate(y) => (1, y as int, seq![]),
        WorksFilterPlan::Type(t) => (2, 0, t@),
        WorksFilterPlan::TypeName(t) => (3, 0, t@),
        WorksFilterPlan::HasLicense => (4, 0, seq![]),
    }
}

/// The filters of the query for `q`, given whether its start and end dates
/// exist and whether its work type is one Crossref knows.
pub open spec fn planned_filters(
    q: SearchQuery,
    from_date_ok: bool,
    until_date_ok: bool,
    type_known: bool,
) -> Seq<(int, int, Seq<char>)> {
    (match q.year_from {
        Some(y) => if from_date_ok {
            seq![(0int, y as int, Seq::<char>::empty())]
        } else {
            seq![]
        },
        None => seq![],
    }) + (match q.year_to {
        Some(y) => if until_date_ok {
            seq![(1int, y as int, Seq::<char>::empty())]
        } else {
            seq![]
        },
        None => seq![],
    }) + (match q.work_type {
        Some(t) => if type_known {
            seq![(2int, 0int, t@)]
        } else {
            seq![(3int, 0int, t@)]
        },
        None => seq![],
    }) + (if q.open_access {
        seq![(4int, 0int, Seq::<char>::empty())]
    } else {
        seq![]
    })
}

/// The query plan for `q` is the one it describes.
pub open spec fn plan_matches(
    q: SearchQuery,
    from_date_ok: bool,
    until_date_ok: bool,
    type_known: bool,
    p: WorksQueryPlan,
) -> bool {
    let term = join_with(term_parts(q), " "@);
    &&& opt_chars(p.term) == (if term.len() == 0 {
        None
    } else {
        Some(term)
    })
    &&& p.rows == q.rows as usize
    &&& p.sort == (match q.sort {
        Some(s) => Some(sort_order_of(s@)),
        None => None,
    })
    &&& p.filters@.map_values(|f: WorksFilterPlan| filter_view(f)) == planned_filters(
        q,
        from_date_ok,
        until_date_ok,
        type_known,
    )
}

/// The default Unpaywall API base URL.
pub open spec fn default_unpaywall_base() -> Seq<char> {
    "https://api.unpaywall.org/v2"@
}

/// The email sent to Unpaywall when none is configured.
pub open spec fn anonymous_email() -> Seq<char> {
    "anonymous@example.com"@
}

/// The URL of the Unpaywall record of a DOI.
pub open spec fn unpaywall_url_of(base: Option<Seq<char>>, email: Option<Seq<char>>, doi: Seq<
    char,
>) -> Seq<char> {
    let b = match base {
        Some(b) => b,
        None => default_unpaywall_base(),
    };
    let e = match email {
        Some(e) => e,
        None => anonymous_email(),
    };
    b + "/"@ + doi_normalised(doi) + "?email="@ + e
}

/// The EZproxy URL of a DOI.
pub open spec fn proxy_url_of(proxy: Seq<char>, doi: Seq<char>) -> Seq<char> {
    "https://"@ + proxy + "/doi/"@ + doi
}

/// The file name a DOI's PDF is saved under: `/` replaced by `_`, then `.pdf`.
pub open spec fn pdf_file_name_of(doi: Seq<char>) -> Seq<char> {
    doi.map_values(
        |c: char|
            if c == '/' {
                '_'
            } else {
                c
            },
    ) + ".pdf"@
}

// ─── Executable code ────────────────────────────────────────────────────────

/// Return `true` if `bytes` begins with the PDF magic number `%PDF-`.
///
/// Publishers often serve HTML landing pages (with 200 OK) at a URL that
/// is labelled as a PDF link; checking the magic bytes avoids saving those.
pub fn is_pdf(bytes: &[u8]) -> (r: bool)
    ensures
        r == (bytes@.len() >= 5 && bytes@.subrange(0, 5) == pdf_magic()),
{
    if bytes.len() < 5 {
        return false;
    }
    let r = bytes[0] == 0x25u8 && bytes[1] == 0x50u8 && bytes[2] == 0x44u8 && bytes[3] == 0x46u8
        && bytes[4] == 0x2du8;
    assert(r == (bytes@.subrange(0, 5) =~= pdf_magic()));
    r
}

/// Build an appropriate `User-Agent` string for the library `version`:
/// `crossref-rs/{version}`, followed by ` (mailto:{email})` when an email is
/// configured.
pub fn build_user_agent(config: &Config, version: &str) -> (r: String)
    ensures
        r@ == "crossref-rs/"@ + version@ + (match config.email {
            Some(e) => " (mailto:"@ + e@ + ")"@,
            None => seq![],
        }),
{
    let mut v: Vec<char> = Vec::new();
    append_str(&mut v, "crossref-rs/");
    append_str(&mut v, version);
    match &config.email {
        Some(e) => {
            append_str(&mut v, " (mailto:");
            append_str(&mut v, e.as_str());
            append_str(&mut v, ")");
            assert(v@ =~= "crossref-rs/"@ + version@ + (" (mailto:"@ + e@ + ")"@));
        },
        None => {
            assert(v@ =~= "crossref-rs/"@ + version@ + Seq::<char>::empty());
        },
    }
    string_of(&v)
}

/// Whether `p` occurs in `s`.
fn text_contains(s: &str, p: &str) -> (r: bool)
    ensures
        r == contains_text(s@, p@),
{
    let v = chars_of(s);
    let pv = chars_of(p);
    if pv.len() > v.len() {
        return false;
    }
    if pv.len() == 0 {
        assert(s@.subrange(0int, 0int + p@.len()) =~= p@);
        return true;
    }
    let mut i: usize = 0;
    while i <= v.len() - pv.len()
        invariant
            v@ == s@,
            pv@ == p@,
            pv@.len() <= v@.len(),
            pv@.len() > 0,
            i <= v@.len() - pv@.len() + 1,
            forall|j: int| 0 <= j < i ==> #[trigger] v@.subrange(j, j + pv@.len()) != pv@,
        decreases v@.len() - pv@.len() + 1 - i,
    {
        if starts_with_at(&v, i, &pv) {
            assert(v@.skip(i as int).subrange(0, pv@.len() as int) =~= v@.subrange(
                i as int,
                i + pv@.len(),
            ));
            return true;
        }
        assert(v@.skip(i as int).subrange(0, pv@.len() as int) =~= v@.subrange(
            i as int,
            i + pv@.len(),
        ));
        i = i + 1;
    }
    false
}

/// The error for a failed search with message `msg`: serde failures (which
/// the `crossref` crate reports as "invalid serde" or "missing field") are
/// parse errors, everything else is an API error.
pub fn classify_search_error(msg: String) -> (r: CrossrefError)
    ensures
        (contains_text(msg@, "invalid serde"@) || contains_text(msg@, "missing field"@)) ==> (
        r matches CrossrefError::Parse(m) && m@ == msg@),
        !(contains_text(msg@, "invalid serde"@) || contains_text(msg@, "missing field"@)) ==> (
        r matches CrossrefError::Api(m) && m@ == msg@),
{
    if text_contains(msg.as_str(), "invalid serde") || text_contains(msg.as_str(), "missing field") {
        CrossrefError::Parse(msg)
    } else {
        CrossrefError::Api(msg)
    }
}

/// An author as "Family, Given" or "Family".
fn author_name_of(c: &CrossrefContributor) -> (r: String)
    ensures
        r@ == author_name(*c),
{
    match &c.given {
        Some(given) => {
            let mut v = chars_of(c.family.as_str());
            append_str(&mut v, ", ");
            append_str(&mut v, given.as_str());
            string_of(&v)
        },
        None => c.family.clone(),
    }
}

/// The first string of `v`, if any.
fn first_of(v: &Vec<String>) -> (r: Option<String>)
    ensures
        opt_chars(r) == first_string(v@),
{
    if v.len() > 0 {
        Some(v[0].clone())
    } else {
        None
    }
}

/// Map a Crossref work into our `WorkMeta` model.
pub fn map_work(w: CrossrefWork) -> (r: WorkMeta)
    ensures
        work_meta_matches(w, r),
        r.doi@ == w.doi@,
        opt_chars(r.title) == (if w.title@.len() > 0 {
            Some(w.title@[0]@)
        } else {
            None
        }),
        r.authors@.len() == (match w.author {
            Some(a) => a@.len(),
            None => 0,
        }),
        forall|i: int|
            0 <= i < r.authors@.len() ==> (match w.author {
                Some(a) => (#[trigger] r.authors@[i])@ == (match a@[i].given {
                    Some(g) => a@[i].family@ + ", "@ + g@,
                    None => a@[i].family@,
                }),
                None => false,
            }),
        r.year == (if w.issued_date_parts@.len() > 0 && w.issued_date_parts@[0]@.len() > 0 {
            match w.issued_date_parts@[0]@[0] {
                Some(y) => Some(y as i32),
                None => None,
            }
        } else {
            None
        }),
        opt_chars(r.journal) == (match w.container_title {
            Some(c) => if c@.len() > 0 {
                Some(c@[0]@)
            } else {
                None
            },
            None => None,
        }),
        opt_chars(r.volume) == opt_chars(w.volume),
        opt_chars(r.issue) == opt_chars(w.issue),
        opt_chars(r.pages) == opt_chars(w.page),
        opt_chars(r.publisher) == Some(w.publisher@),
        opt_chars(r.work_type) == Some(w.type_@),
        r.is_oa is None,
        r.oa_status is None,
        r.pdf_url is None,
{
    let title = first_of(&w.title);
    let mut authors: Vec<String> = Vec::new();
    match &w.author {
        Some(list) => {
            let ghost names = list@.map_values(|c: CrossrefContributor| author_name(c));
            let mut i: usize = 0;
            while i < list.len()
                invariant
                    names == list@.map_values(|c: CrossrefContributor| author_name(c)),
                    i <= list@.len(),
                    authors@.len() == i,
                    strings_view(authors@) == names.subrange(0, i as int),
                decreases list@.len() - i,
            {
                let a = author_name_of(&list[i]);
                authors.push(a);
                assert(strings_view(authors@) =~= names.subrange(0, i + 1));
                i = i + 1;
            }
            assert(names.subrange(0, list@.len() as int) =~= names);
        },
        None => {
            assert(strings_view(authors@) =~= Seq::<Seq<char>>::empty());
        },
    }
    // The year is the first part of the first `issued` date.
    let year: Option<i32> = if w.issued_date_parts.len() > 0 && w.issued_date_parts[0].len() > 0 {
        match w.issued_date_parts[0][0] {
            Some(y) => Some(y as i32),
            None => None,
        }
    } else {
        None
    };
    let journal: Option<String> = match &w.container_title {
        Some(c) => first_of(c),
        None => None,
    };
    proof {
        match w.author {
            Some(a) => {
                assert forall|i: int| 0 <= i < authors@.len() implies (#[trigger] authors@[i])@ == (
                match a@[i].given {
                    Some(g) => a@[i].family@ + ", "@ + g@,
                    None => a@[i].family@,
                }) by {
                    assert(strings_view(authors@)[i] == authors@[i]@);
                }
            },
            None => {},
        }
    }
    WorkMeta {
        doi: w.doi,
        title,
        authors,
        year,
        journal,
        volume: w.volume,
        issue: w.issue,
        pages: w.page,
        publisher: Some(w.publisher),
        work_type: Some(w.type_),
        is_oa: None,
        oa_status: None,
        pdf_url: None,
    }
}

/// The metadata enriched with Unpaywall's answer: OA flag, OA status and the
/// best PDF URL when there is an answer; unchanged otherwise (enrichment
/// failures are not fatal).
pub fn enrich_with_unpaywall(meta: WorkMeta, oa: Option<UnpaywallRecord>) -> (r: WorkMeta)
    ensures
        r.doi == meta.doi,
        r.title == meta.title,
        r.authors == meta.authors,
        r.year == meta.year,
        r.journal == meta.journal,
        r.volume == meta.volume,
        r.issue == meta.issue,
        r.pages == meta.pages,
        r.publisher == meta.publisher,
        r.work_type == meta.work_type,
        match oa {
            Some(rec) => {
                &&& r.is_oa == Some(rec.is_oa)
                &&& opt_chars(r.oa_status) == Some(rec.oa_status@)
                &&& opt_chars(r.pdf_url) == (match rec.best_oa_location {
                    Some(loc) => opt_chars(loc.url_for_pdf),
                    None => None,
                })
            },
            None => r.is_oa == meta.is_oa && r.oa_status == meta.oa_status && r.pdf_url
                == meta.pdf_url,
        },
{
    let mut meta = meta;
    match oa {
        Some(rec) => {
            meta.is_oa = Some(rec.is_oa);
            meta.oa_status = Some(rec.oa_status);
            meta.pdf_url = match rec.best_oa_location {
                Some(loc) => loc.url_for_pdf,
                None => None,
            };
        },
        None => {},
    }
    meta
}

/// The URL of the Unpaywall record of `doi`: `{base}/{normalised doi}?email={email}`,
/// with the public API base and an anonymous address standing in for
/// missing ones.
pub fn unpaywall_url(base: Option<&str>, email: Option<&str>, doi: &str) -> (r: String)
    ensures
        r@ == unpaywall_url_of(
            match base {
                Some(b) => Some(b@),
                None => None,
            },
            match email {
                Some(e) => Some(e@),
                None => None,
            },
            doi@,
        ),
{
    let norm = normalise_doi(doi);
    let mut v: Vec<char> = Vec::new();
    match base {
        Some(b) => append_str(&mut v, b),
        None => append_str(&mut v, "https://api.unpaywall.org/v2"),
    }
    append_str(&mut v, "/");
    append_str(&mut v, norm.as_str());
    append_str(&mut v, "?email=");
    match email {
        Some(e) => append_str(&mut v, e),
        None => append_str(&mut v, "anonymous@example.com"),
    }
    let ghost b = match base {
        Some(b) => b@,
        None => default_unpaywall_base(),
    };
    let ghost e = match email {
        Some(e) => e@,
        None => anonymous_email(),
    };
    assert(v@ =~= b + "/"@ + doi_normalised(doi@) + "?email="@ + e);
    string_of(&v)
}

/// The EZproxy URL of a (normalised) DOI.
pub fn proxy_pdf_url(proxy: &str, doi: &str) -> (r: String)
    ensures
        r@ == proxy_url_of(proxy@, doi@),
{
    let mut v: Vec<char> = Vec::new();
    append_str(&mut v, "https://");
    append_str(&mut v, proxy);
    append_str(&mut v, "/doi/");
    append_str(&mut v, doi);
    assert(v@ =~= proxy_url_of(proxy@, doi@));
    string_of(&v)
}

/// The file name a (normalised) DOI's PDF is saved under.
pub fn pdf_file_name(doi: &str) -> (r: String)
    ensures
        r@ == pdf_file_name_of(doi@),
{
    let v = chars_of(doi);
    let mut out: Vec<char> = Vec::new();
    let mut i: usize = 0;
    while i < v.len()
        invariant
            v@ == doi@,
            i <= v@.len(),
            out@ == v@.subrange(0, i as int).map_values(
                |c: char|
                    if c == '/' {
                        '_'
                    } else {
                        c
                    },
            ),
        decreases v@.len() - i,
    {
        if v[i] == '/' {
            out.push('_');
        } else {
            out.push(v[i]);
        }
        assert(out@ =~= v@.subrange(0, i + 1).map_values(
            |c: char|
                if c == '/' {
                    '_'
                } else {
                    c
                },
        ));
        i = i + 1;
    }
    assert(v@.subrange(0, v@.len() as int) =~= v@);
    append_str(&mut out, ".pdf");
    string_of(&out)
}

/// The URLs to try, in order, when downloading the PDF of a (normalised)
/// DOI: the direct OA URL when Unpaywall gave one, then the EZproxy URL when
/// a proxy is configured.
pub fn pdf_download_urls(pdf_url: Option<&str>, proxy: Option<&str>, doi: &str) -> (r: Vec<String>)
    ensures
        strings_view(r@) == (match pdf_url {
            Some(u) => seq![u@],
            None => seq![],
        }) + (match proxy {
            Some(p) => seq![proxy_url_of(p@, doi@)],
            None => seq![],
        }),
{
    let mut r: Vec<String> = Vec::new();
    if let Some(u) = pdf_url {
        r.push(u.to_owned());
    }
    if let Some(p) = proxy {
        r.push(proxy_pdf_url(p, doi));
    }
    assert(strings_view(r@) =~= (match pdf_url {
        Some(u) => seq![u@],
        None => seq![],
    }) + (match proxy {
        Some(p) => seq![proxy_url_of(p@, doi@)],
        None => seq![],
    }));
    r
}

/// The error reported when no PDF could be downloaded for a (normalised) DOI.
pub fn no_pdf_error(doi: &str) -> (r: CrossrefError)
    ensures
        r matches CrossrefError::PdfDownload(m) && m@ == "no downloadable PDF found; try https://doi.org/"@
            + doi@,
{
    let mut v: Vec<char> = Vec::new();
    append_str(&mut v, "no downloadable PDF found; try https://doi.org/");
    append_str(&mut v, doi);
    CrossrefError::PdfDownload(string_of(&v))
}

/// The sort order a sort name selects; unknown names select `Score`.
fn sort_order(s: &str) -> (r: SortOrder)
    ensures
        r == sort_order_of(s@),
{
    if crate::text::str_eq(s, "score") {
        SortOrder::Score
    } else if crate::text::str_eq(s, "updated") {
        SortOrder::Updated
    } else if crate::text::str_eq(s, "deposited") {
        SortOrder::Deposited
    } else if crate::text::str_eq(s, "indexed") {
        SortOrder::Indexed
    } else if crate::text::str_eq(s, "published") {
        SortOrder::Published
    } else {
        SortOrder::Score
    }
}

/// The works query for `q`, given whether January 1 of its start year and
/// December 31 of its end year are dates `chrono` can hold, and whether its
/// work type is one Crossref's type list knows.
///
/// All text inputs are combined into the free-form query term (Crossref's
/// field queries are not used); an empty term asks for all works.
pub fn plan_works_query(
    q: &SearchQuery,
    from_date_ok: bool,
    until_date_ok: bool,
    type_known: bool,
) -> (r: WorksQueryPlan)
    ensures
        plan_matches(*q, from_date_ok, until_date_ok, type_known, r),
{
    let mut parts: Vec<String> = Vec::new();
    if let Some(t) = &q.query {
        parts.push(t.clone());
    }
    if let Some(t) = &q.title {
        parts.push(t.clone());
    }
    if let Some(a) = &q.author {
        parts.push(a.clone());
    }
    assert(parts@.map_values(|s: String| s@) =~= term_parts(*q));
    let term = crate::text::join_strings(&parts, " ");
    let term: Option<String> = if term.unicode_len() == 0 {
        None
    } else {
        Some(term)
    };
    let sort: Option<SortOrder> = match &q.sort {
        Some(s) => Some(sort_order(s.as_str())),
        None => None,
    };
    let mut filters: Vec<WorksFilterPlan> = Vec::new();
    if let Some(y) = q.year_from {
        if from_date_ok {
            filters.push(WorksFilterPlan::FromPubDate(y));
        }
    }
    if let Some(y) = q.year_to {
        if until_date_ok {
            filters.push(WorksFilterPlan::UntilPubDate(y));
        }
    }
    if let Some(t) = &q.work_type {
        if type_known {
            filters.push(WorksFilterPlan::Type(t.clone()));
        } else {
            filters.push(WorksFilterPlan::TypeName(t.clone()));
        }
    }
    if q.open_access {
        filters.push(WorksFilterPlan::HasLicense);
    }
    assert(filters@.map_values(|f: WorksFilterPlan| filter_view(f)) =~= planned_filters(
        *q,
        from_date_ok,
        until_date_ok,
        type_known,
    ));
    WorksQueryPlan { term, rows: q.rows as usize, sort, filters }
}

/// Turn a `SearchQuery` into the works query to send: the dates are
/// checked with `chrono` and the work type against Crossref's type list.
pub fn build_works_query(q: &SearchQuery) -> (r: WorksQueryPlan)
    ensures
        plan_matches(
            *q,
            match q.year_from {
                Some(y) => calendar_date_exists(y, 1, 1),
                None => false,
            },
            match q.year_to {
                Some(y) => calendar_date_exists(y, 12, 31),
                None => false,
            },
            match q.work_type {
                Some(t) => crossref_type_known(t@),
                None => false,
            },
            r,
        ),
{
    let from_ok = match q.year_from {
        Some(y) => date_exists(y, 1, 1),
        None => false,
    };
    let until_ok = match q.year_to {
        Some(y) => date_exists(y, 12, 31),
        None => false,
    };
    let known = match &q.work_type {
        Some(t) => is_crossref_type(t.as_str()),
        None => false,
    };
    plan_works_query(q, from_ok, until_ok, known)
}

// ─── PDF download steps ─────────────────────────────────────────────────────

/// What a PDF download does next: fetch the URL at an index, keep the body
/// just fetched, or give up.
#[derive(Debug, PartialEq, Eq, Structural, Clone, Copy)]
pub enum PdfStep {
    Fetch(usize),
    Keep,
    GiveUp,
}

/// Whether a fetched answer is a PDF: a successful answer whose body starts
/// with `%PDF-`.
pub open spec fn body_is_pdf(body: Option<Seq<u8>>) -> bool {
    match body {
        Some(b) => b.len() >= 5 && b.subrange(0, 5) == pdf_magic(),
        None => false,
    }
}

/// The next step with `n` URLs, `tried` of them fetched, and `last` the body
/// of the last one fetched (`None` when it failed or nothing was fetched).
pub open spec fn pdf_step_of(n: nat, tried: nat, last: Option<Seq<u8>>) -> PdfStep {
    if tried > 0 && body_is_pdf(last) {
        PdfStep::Keep
    } else if tried < n {
        PdfStep::Fetch(tried as usize)
    } else {
        PdfStep::GiveUp
    }
}

pub open spec fn opt_bytes(o: Option<&[u8]>) -> Option<Seq<u8>> {
    match o {
        Some(b) => Some(b@),
        None => None,
    }
}

/// The next step of a PDF download over `n_urls` URLs tried in order, after
/// `tried` fetches whose last gave `last_body` (`None` when the answer was
/// not a success): keep the last body when it is a PDF, else fetch the next
/// URL, else give up.
pub fn next_pdf_step(n_urls: usize, tried: usize, last_body: Option<&[u8]>) -> (r: PdfStep)
    ensures
        r == pdf_step_of(n_urls as nat, tried as nat, opt_bytes(last_body)),
{
    let last_is_pdf = match last_body {
        Some(b) => is_pdf(b),
        None => false,
    };
    if tried > 0 && last_is_pdf {
        PdfStep::Keep
    } else if tried < n_urls {
        PdfStep::Fetch(tried)
    } else {
        PdfStep::GiveUp
    }
}

/// The index of the first PDF body from `k` on, if any.
pub open spec fn first_pdf_from(bodies: Seq<Option<Seq<u8>>>, k: int) -> Option<int>
    decreases bodies.len() - k,
{
    if k < 0 || k >= bodies.len() {
        None
    } else if body_is_pdf(bodies[k]) {
        Some(k)
    } else {
        first_pdf_from(bodies, k + 1)
    }
}

/// The body a download keeps when fetching the URLs in order gives
/// `bodies`, driven by `pdf_step_of` from `tried` fetches with last body
/// `last`: the index kept, or `None` when it gives up.
pub open spec fn pdf_run(bodies: Seq<Option<Seq<u8>>>, tried: nat, last: Option<Seq<u8>>) -> Option<
    int,
>
    decreases bodies.len() - tried,
{
    match pdf_step_of(bodies.len(), tried, last) {
        PdfStep::Keep => Some(tried - 1),
        PdfStep::GiveUp => None,
        PdfStep::Fetch(i) => if tried < bodies.len() {
            pdf_run(bodies, tried + 1, bodies[tried as int])
        } else {
            None
        },
    }
}

proof fn lemma_pdf_run_from(bodies: Seq<Option<Seq<u8>>>, tried: nat, last: Option<Seq<u8>>)
    requires
        tried <= bodies.len(),
        tried == 0 || !body_is_pdf(last),
    ensures
        pdf_run(bodies, tried, last) == first_pdf_from(bodies, tried as int),
    decreases bodies.len() - tried,
{
    if tried < bodies.len() {
        let b = bodies[tried as int];
        if body_is_pdf(b) {
            let next = (tried + 1) as nat;
            assert(pdf_step_of(bodies.len(), next, b) == PdfStep::Keep);
            assert(pdf_run(bodies, next, b) == Some(tried as int));
        } else {
            lemma_pdf_run_from(bodies, (tried + 1) as nat, b);
        }
    }
}

/// The first PDF body wins: driving a download with `next_pdf_step` over
/// URLs whose fetches give `bodies` keeps the body of the first URL whose
/// answer is a PDF, and gives up when none is.
pub proof fn lemma_first_pdf_body_wins(bodies: Seq<Option<Seq<u8>>>)
    ensures
        pdf_run(bodies, 0, None) == first_pdf_from(bodies, 0),
{
    lemma_pdf_run_from(bodies, 0, None);
}

// ─── Laws of the works query ────────────────────────────────────────────────

/// Each documented sort name selects its own order (`score`, `updated`,
/// `deposited`, `indexed`, `published`); any other name falls back to
/// `Score`, and no sort name plans no sort.
pub proof fn lemma_sort_names_select_their_order(
    q: SearchQuery,
    from_date_ok: bool,
    until_date_ok: bool,
    type_known: bool,
    p: WorksQueryPlan,
)
    requires
        plan_matches(q, from_date_ok, until_date_ok, type_known, p),
    ensures
        q.sort is None ==> p.sort is None,
        q.sort matches Some(s) && s@ == "score"@ ==> p.sort == Some(SortOrder::Score),
        q.sort matches Some(s) && s@ == "updated"@ ==> p.sort == Some(SortOrder::Updated),
        q.sort matches Some(s) && s@ == "deposited"@ ==> p.sort == Some(SortOrder::Deposited),
        q.sort matches Some(s) && s@ == "indexed"@ ==> p.sort == Some(SortOrder::Indexed),
        q.sort matches Some(s) && s@ == "published"@ ==> p.sort == Some(SortOrder::Published),
        q.sort matches Some(s) && s@ != "score"@ && s@ != "updated"@ && s@ != "deposited"@ && s@
            != "indexed"@ && s@ != "published"@ ==> p.sort == Some(SortOrder::Score),
{
    reveal_strlit("score");
    reveal_strlit("updated");
    reveal_strlit("deposited");
    reveal_strlit("indexed");
    reveal_strlit("published");
    let names = seq!["score"@, "updated"@, "deposited"@, "indexed"@, "published"@];
    assert forall|i: int, j: int| 0 <= i < j < 5 implies names[i] != names[j] by {
        if names[i].len() == names[j].len() {
            assert(names[i][0] != names[j][0]);
        }
    }
    assert(names[0] != names[1] && names[0] != names[2] && names[0] != names[3] && names[0]
        != names[4] && names[1] != names[2] && names[1] != names[3] && names[1] != names[4]
        && names[2] != names[3] && names[2] != names[4] && names[3] != names[4]);
}

/// The plan asks for the query's number of rows, and its free-text term is
/// the query, title and author that are given, in that order, joined by
/// single spaces (no term when none is given).
pub proof fn lemma_plan_rows_and_term(
    q: SearchQuery,
    from_date_ok: bool,
    until_date_ok: bool,
    type_known: bool,
    p: WorksQueryPlan,
)
    requires
        plan_matches(q, from_date_ok, until_date_ok, type_known, p),
    ensures
        p.rows == q.rows,
        q.query is None && q.title is None && q.author is None ==> p.term is None,
        q.query is Some && q.title is None && q.author is None ==> opt_chars(p.term) == (
        if q.query.unwrap()@.len() > 0 {
            Some(q.query.unwrap()@)
        } else {
            None
        }),
        q.query is Some && q.title is Some && q.author is Some ==> opt_chars(p.term) == Some(
            q.query.unwrap()@ + " "@ + q.title.unwrap()@ + " "@ + q.author.unwrap()@,
        ),
{
    reveal_strlit(" ");
    let parts = term_parts(q);
    if q.query is None && q.title is None && q.author is None {
        assert(parts =~= Seq::<Seq<char>>::empty());
    }
    if q.query is Some && q.title is None && q.author is None {
        let a = q.query.unwrap();
        assert(parts =~= seq![a@]);
    }
    if q.query is Some && q.title is Some && q.author is Some {
        let a = q.query.unwrap()@;
        let t = q.title.unwrap()@;
        let u = q.author.unwrap()@;
        assert(parts =~= seq![a, t, u]);
        assert(parts.drop_last() =~= seq![a, t]);
        assert(parts.drop_last().drop_last() =~= seq![a]);
        let p2 = parts.drop_last();
        let p1 = p2.drop_last();
        assert(join_with(p1, " "@) == a);
        assert(p2.last() == t);
        assert(join_with(p2, " "@) == join_with(p1, " "@) + " "@ + p2.last());
        assert(join_with(parts.drop_last(), " "@) == a + " "@ + t);
        assert(join_with(parts, " "@) =~= a + " "@ + t + " "@ + u);
    }
}

// ─── Laws of the download texts ─────────────────────────────────────────────

/// A body is a PDF exactly when its first five bytes are `%PDF-`.
pub proof fn lemma_pdf_magic(b: Seq<u8>)
    ensures
        body_is_pdf(Some(b)) <==> (b.len() >= 5 && b[0] == 0x25u8 && b[1] == 0x50u8 && b[2]
            == 0x44u8 && b[3] == 0x46u8 && b[4] == 0x2du8),
{
    if b.len() >= 5 {
        let h = b.subrange(0, 5);
        if b[0] == 0x25u8 && b[1] == 0x50u8 && b[2] == 0x44u8 && b[3] == 0x46u8 && b[4] == 0x2du8 {
            assert(h =~= pdf_magic());
        }
        if h == pdf_magic() {
            assert(h[0] == b[0] && h[1] == b[1] && h[2] == b[2] && h[3] == b[3] && h[4] == b[4]);
        }
    }
}

/// The PDF of a DOI is saved as the DOI with each `/` turned into `_` and
/// every other character kept, followed by `.pdf`; and the EZproxy URL of a
/// DOI is `https://{proxy}/doi/{doi}`.
pub proof fn lemma_pdf_names(doi: Seq<char>, proxy: Seq<char>)
    ensures
        pdf_file_name_of(doi).len() == doi.len() + 4,
        forall|i: int|
            0 <= i < doi.len() ==> #[trigger] pdf_file_name_of(doi)[i] == (if doi[i] == '/' {
                '_'
            } else {
                doi[i]
            }),
        pdf_file_name_of(doi).subrange(doi.len() as int, doi.len() + 4int) == ".pdf"@,
        proxy_url_of(proxy, doi) == "https://"@ + proxy + "/doi/"@ + doi,
{
    reveal_strlit(".pdf");
    let n = pdf_file_name_of(doi);
    assert(n.subrange(doi.len() as int, doi.len() + 4int) =~= ".pdf"@);
}

/// The Unpaywall URL of a DOI: the base (Unpaywall's v2 API unless another
/// is given), `/`, the normalised DOI, `?email=` and the email
/// (`anonymous@example.com` when none is configured).
pub proof fn lemma_unpaywall_url_parts(base: Option<Seq<char>>, email: Option<Seq<char>>, doi: Seq<
    char,
>)
    ensures
        unpaywall_url_of(base, email, doi) == (match base {
            Some(b) => b,
            None => "https://api.unpaywall.org/v2"@,
        }) + "/"@ + doi_normalised(doi) + "?email="@ + (match email {
            Some(e) => e,
            None => "anonymous@example.com"@,
        }),
{
}

/// The filters a query plans: from January 1 of `year_from` first (when that
/// date exists), then until December 31 of `year_to` (when that date
/// exists), then the work type (as a known Crossref type, or as a plain type
/// name), then a license filter for open access; each only when asked for.
pub proof fn lemma_plan_filters(
    q: SearchQuery,
    from_date_ok: bool,
    until_date_ok: bool,
    type_known: bool,
    p: WorksQueryPlan,
)
    requires
        plan_matches(q, from_date_ok, until_date_ok, type_known, p),
    ensures
        p.filters@.len() == (if q.year_from is Some && from_date_ok {
            1int
        } else {
            0
        }) + (if q.year_to is Some && until_date_ok {
            1int
        } else {
            0
        }) + (if q.work_type is Some {
            1int
        } else {
            0
        }) + (if q.open_access {
            1int
        } else {
            0
        }),
        q.year_from is Some && from_date_ok ==> p.filters@[0] == WorksFilterPlan::FromPubDate(
            q.year_from.unwrap(),
        ),
        q.year_from is None && q.year_to is Some && until_date_ok ==> p.filters@[0]
            == WorksFilterPlan::UntilPubDate(q.year_to.unwrap()),
        q.open_access ==> p.filters@[p.filters@.len() - 1] == WorksFilterPlan::HasLicense,
        q.year_from is None && q.year_to is None && q.work_type is Some ==> (if type_known {
            p.filters@[0] matches WorksFilterPlan::Type(t) && t@ == q.work_type.unwrap()@
        } else {
            p.filters@[0] matches WorksFilterPlan::TypeName(t) && t@ == q.work_type.unwrap()@
        }),
        !q.open_access ==> forall|i: int|
            0 <= i < p.filters@.len() ==> !(#[trigger] p.filters@[i] is HasLicense),
{
    let views = p.filters@.map_values(|f: WorksFilterPlan| filter_view(f));
    let pf = planned_filters(q, from_date_ok, until_date_ok, type_known);
    assert(views.len() == p.filters@.len());
    assert forall|i: int| 0 <= i < p.filters@.len() implies #[trigger] filter_view(p.filters@[i])
        == pf[i] by {
        assert(views[i] == filter_view(p.filters@[i]));
    }
    if q.year_from is Some && from_date_ok {
        assert(filter_view(p.filters@[0]) == pf[0]);
    }
    if q.year_from is None && q.year_to is Some && until_date_ok {
        assert(filter_view(p.filters@[0]) == pf[0]);
    }
    if q.open_access {
        assert(filter_view(p.filters@[p.filters@.len() - 1]) == pf[pf.len() - 1]);
    }
    if q.year_from is None && q.year_to is None && q.work_type is Some {
        assert(filter_view(p.filters@[0]) == pf[0]);
    }
    if !q.open_access {
        assert forall|i: int| 0 <= i < p.filters@.len() implies !(
        #[trigger] p.filters@[i] is HasLicense) by {
            assert(filter_view(p.filters@[i]) == pf[i]);
        }
    }
}

} // verus!
