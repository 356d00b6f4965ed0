//! BibTeX records: building them from metadata, serialising them, reading
//! the keys of an existing bibliography, and planning an append that skips
//! known DOIs and resolves key conflicts.
use vstd::prelude::*;

use crate::error::CrossrefError;
use crate::models::{
    char_seq_lt, field_lookup, names_increasing, opt_chars, pairs_view, strings_view, BibRecord,
    WorkMeta,
};
use crate::text::{int_decimal, join_with};
use crate::utils::{
    generate_citation_key_by_style, key_by_style, lemma_resolved_key_extends_base,
    lemma_resolved_key_is_free,
    resolve_key_conflict, resolved_key, KeyStyle,
};

verus! {

/// `serde_bibtex::Error`, returned by its serialiser.
#[verifier::external_type_specification]
#[verifier::external_body]
pub struct ExBibtexError(serde_bibtex::Error);

/// An entry as plain values: entry type, entry key and `(name, value)` fields.
pub type EntryView = (Seq<char>, Seq<char>, Seq<(Seq<char>, Seq<char>)>);

/// The entries of a list of records.
pub open spec fn records_view(rs: Seq<BibRecord>) -> Seq<EntryView> {
    rs.map_values(|r: BibRecord| r@)
}

pub open spec fn tuples_view(v: Seq<(String, String, Vec<(String, String)>)>) -> Seq<EntryView> {
    v.map_values(|e: (String, String, Vec<(String, String)>)| (e.0@, e.1@, pairs_view(e.2@)))
}

pub open spec fn opt_tuples_view(v: Seq<Option<(String, String, Vec<(String, String)>)>>) -> Seq<
    Option<EntryView>,
> {
    v.map_values(
        |o: Option<(String, String, Vec<(String, String)>)>|
            match o {
                Some(e) => Some((e.0@, e.1@, pairs_view(e.2@))),
                None => None,
            },
    )
}

/// The text that `serde_bibtex::to_string` produces for a list of regular
/// entries given as `(type, key, fields)` tuples, or `None` when it fails.
pub uninterp spec fn bibtex_text(entries: Seq<EntryView>) -> Option<Seq<char>>;

/// The regular entries that `serde_bibtex`'s `Deserializer::from_str(content)
/// .into_iter_regular_entry()` yields for `content`, each read as a
/// `(type, key, fields)` tuple with its fields in map order; `None` where an
/// entry failed to deserialise.
pub uninterp spec fn bib_regular_entries(content: Seq<char>) -> Seq<Option<EntryView>>;

/// Calls `serde_bibtex::to_string` on `(type, key, fields)` tuples, a form
/// the crate documents as a regular entry; the result is the named text.
#[verifier::external_body]
fn bibtex_to_string(entries: &Vec<(String, String, Vec<(String, String)>)>) -> (r: Result<
    String,
    serde_bibtex::Error,
>)
    ensures
        match r {
            Ok(s) => bibtex_text(tuples_view(entries@)) == Some(s@),
            Err(_) => bibtex_text(tuples_view(entries@)) is None,
        },
{
    serde_bibtex::to_string(entries)
}

/// Calls `to_string` on a `serde_bibtex::Error`; nothing is stated of the
/// message text.
#[verifier::external_body]
fn bibtex_error_message(e: &serde_bibtex::Error) -> String {
    e.to_string()
}

/// Reads the regular entries of `content` with `serde_bibtex`'s
/// deserializer, each as a `(type, key, BTreeMap)` tuple whose map is turned
/// into its `(name, value)` pairs; an entry that fails becomes `None`.
#[verifier::external_body]
fn read_regular_entries(content: &str) -> (r: Vec<Option<(String, String, Vec<(String, String)>)>>)
    ensures
        opt_tuples_view(r@) == bib_regular_entries(content@),
{
    serde_bibtex::de::Deserializer::from_str(content).into_iter_regular_entry::<
        (String, String, std::collections::BTreeMap<String, String>),
    >().map(|e| e.ok().map(|(t, k, f)| (t, k, f.into_iter().collect()))).collect()
}

// ─── Specifications ─────────────────────────────────────────────────────────

/// The BibTeX entry type for a Crossref work type: `article`, `book`,
/// `inbook`, `inproceedings`, `phdthesis` or `techreport` for the types
/// listed, `misc` for every other type and for none.
pub open spec fn bib_entry_type(work_type: Option<Seq<char>>) -> Seq<char> {
    match work_type {
        Some(t) => if t == "journal-article"@ {
            "article"@
        } else if t == "book"@ || t == "monograph"@ {
            "book"@
        } else if t == "book-chapter"@ {
            "inbook"@
        } else if t == "proceedings-article"@ {
            "inproceedings"@
        } else if t == "dissertation"@ {
            "phdthesis"@
        } else if t == "report"@ {
            "techreport"@
        } else {
            "misc"@
        },
        None => "misc"@,
    }
}

/// One field when there is a value, none otherwise.
pub open spec fn opt_field(name: Seq<char>, v: Option<Seq<char>>) -> Seq<(Seq<char>, Seq<char>)> {
    match v {
        Some(x) => seq![(name, x)],
        None => seq![],
    }
}

/// The `author` value: all authors joined by ` and `, when there are any.
pub open spec fn author_field(authors: Seq<Seq<char>>) -> Option<Seq<char>> {
    if authors.len() > 0 {
        Some(join_with(authors, " and "@))
    } else {
        None
    }
}

pub open spec fn year_field(year: Option<i32>) -> Option<Seq<char>> {
    match year {
        Some(y) => Some(int_decimal(y as int)),
        None => None,
    }
}

/// The fields of the record for `w`, in name order: `doi` always, the others
/// when the work has them (`number` holds the issue).
pub open spec fn bib_fields(w: WorkMeta) -> Seq<(Seq<char>, Seq<char>)> {
    opt_field("author"@, author_field(strings_view(w.authors@))) + seq![("doi"@, w.doi@)]
        + opt_field("journal"@, opt_chars(w.journal)) + opt_field("number"@, opt_chars(w.issue))
        + opt_field("pages"@, opt_chars(w.pages)) + opt_field(
        "publisher"@,
        opt_chars(w.publisher),
    ) + opt_field("title"@, opt_chars(w.title)) + opt_field("volume"@, opt_chars(w.volume))
        + opt_field("year"@, year_field(w.year))
}

/// The record for `w` with keys in the given style.
pub open spec fn bib_record_of(w: WorkMeta, style: KeyStyle) -> EntryView {
    (bib_entry_type(opt_chars(w.work_type)), key_by_style(w, style), bib_fields(w))
}

/// The keys of the entries that were read.
pub open spec fn entry_keys(es: Seq<Option<EntryView>>) -> Seq<Seq<char>>
    decreases es.len(),
{
    if es.len() == 0 {
        seq![]
    } else {
        match es.last() {
            Some(e) => entry_keys(es.drop_last()).push(e.1),
            None => entry_keys(es.drop_last()),
        }
    }
}

/// The `doi` values of the entries that were read and have one.
pub open spec fn entry_dois(es: Seq<Option<EntryView>>) -> Seq<Seq<char>>
    decreases es.len(),
{
    if es.len() == 0 {
        seq![]
    } else {
        match es.last() {
            Some(e) => match field_lookup(e.2, "doi"@) {
                Some(d) => entry_dois(es.drop_last()).push(d),
                None => entry_dois(es.drop_last()),
            },
            None => entry_dois(es.drop_last()),
        }
    }
}

/// A record's DOI: its `doi` field, or empty.
pub open spec fn record_doi(r: EntryView) -> Seq<char> {
    match field_lookup(r.2, "doi"@) {
        Some(d) => d,
        None => seq![],
    }
}

/// The state after planning the append of `recs`: keys committed, DOIs
/// committed, and the records to write (with their resolved keys).
pub open spec fn plan_state(keys: Seq<Seq<char>>, dois: Seq<Seq<char>>, recs: Seq<EntryView>) -> (
    Seq<Seq<char>>,
    Seq<Seq<char>>,
    Seq<EntryView>,
)
    decreases recs.len(),
{
    if recs.len() == 0 {
        (keys, dois, seq![])
    } else {
        let (k, d, out) = plan_state(keys, dois, recs.drop_last());
        let r = recs.last();
        let doi = record_doi(r);
        if doi.len() > 0 && d.contains(doi) {
            (k, d, out)
        } else {
            let nk = resolved_key(r.1, k);
            (k.push(nk), if doi.len() > 0 {
                d.push(doi)
            } else {
                d
            }, out.push((r.0, nk, r.2)))
        }
    }
}

/// The records an append writes, given the keys and DOIs already present.
pub open spec fn planned_appends(
    keys: Seq<Seq<char>>,
    dois: Seq<Seq<char>>,
    recs: Seq<EntryView>,
) -> Seq<EntryView> {
    plan_state(keys, dois, recs).2
}

/// The non-empty DOIs of the entries, in order.
pub open spec fn nonempty_dois(out: Seq<EntryView>) -> Seq<Seq<char>>
    decreases out.len(),
{
    if out.len() == 0 {
        seq![]
    } else {
        let d = record_doi(out.last());
        if d.len() > 0 {
            nonempty_dois(out.drop_last()).push(d)
        } else {
            nonempty_dois(out.drop_last())
        }
    }
}

/// The keys of the entries, in order.
pub open spec fn keys_of(out: Seq<EntryView>) -> Seq<Seq<char>> {
    out.map_values(|e: EntryView| e.1)
}

// ─── Laws of records ─────────────────────────────────────────────────────────

/// Looking a field up in two concatenated field lists finds it in the first
/// list when it is there, otherwise in the second.
pub proof fn lemma_lookup_concat(
    a: Seq<(Seq<char>, Seq<char>)>,
    b: Seq<(Seq<char>, Seq<char>)>,
    k: Seq<char>,
)
    ensures
        field_lookup(a + b, k) == (match field_lookup(a, k) {
            Some(v) => Some(v),
            None => field_lookup(b, k),
        }),
    decreases a.len(),
{
    if a.len() == 0 {
        assert(a + b =~= b);
    } else {
        assert((a + b)[0] == a[0]);
        assert((a + b).drop_first() =~= a.drop_first() + b);
        lemma_lookup_concat(a.drop_first(), b, k);
    }
}

/// The record of a work carries the work's DOI as its `doi` field, whatever
/// the key style, so appending deduplicates works by their DOI.
pub proof fn lemma_record_doi_is_work_doi(w: WorkMeta, style: KeyStyle)
    ensures
        field_lookup(bib_fields(w), "doi"@) == Some(w.doi@),
        record_doi(bib_record_of(w, style)) == w.doi@,
{
    let k = "doi"@;
    let a = opt_field("author"@, author_field(strings_view(w.authors@)));
    let d = seq![("doi"@, w.doi@)];
    assert(field_lookup(a, k) is None) by {
        reveal_strlit("author");
        reveal_strlit("doi");
        assert("author"@.len() != "doi"@.len());
        if a.len() > 0 {
            assert(a[0].0 == "author"@);
            assert(a[0].0 != k);
            assert(a.drop_first() =~= Seq::<(Seq<char>, Seq<char>)>::empty());
            assert(field_lookup(a.drop_first(), k) is None);
        }
    }
    assert(field_lookup(d, k) == Some(w.doi@)) by {
        assert(d[0].0 == k);
    }
    lemma_lookup_concat(a, d, k);
    let x1 = a + d;
    let x2 = x1 + opt_field("journal"@, opt_chars(w.journal));
    lemma_lookup_concat(x1, opt_field("journal"@, opt_chars(w.journal)), k);
    let x3 = x2 + opt_field("number"@, opt_chars(w.issue));
    lemma_lookup_concat(x2, opt_field("number"@, opt_chars(w.issue)), k);
    let x4 = x3 + opt_field("pages"@, opt_chars(w.pages));
    lemma_lookup_concat(x3, opt_field("pages"@, opt_chars(w.pages)), k);
    let x5 = x4 + opt_field("publisher"@, opt_chars(w.publisher));
    lemma_lookup_concat(x4, opt_field("publisher"@, opt_chars(w.publisher)), k);
    let x6 = x5 + opt_field("title"@, opt_chars(w.title));
    lemma_lookup_concat(x5, opt_field("title"@, opt_chars(w.title)), k);
    let x7 = x6 + opt_field("volume"@, opt_chars(w.volume));
    lemma_lookup_concat(x6, opt_field("volume"@, opt_chars(w.volume)), k);
    lemma_lookup_concat(x7, opt_field("year"@, year_field(w.year)), k);
}

/// Looking a name up in an optional single field finds the value exactly
/// when the names agree.
proof fn lemma_lookup_opt_field(n: Seq<char>, v: Option<Seq<char>>, k: Seq<char>)
    ensures
        field_lookup(opt_field(n, v), k) == (if n == k {
            v
        } else {
            None
        }),
{
    match v {
        Some(x) => {
            assert(opt_field(n, v)[0] == (n, x));
            assert(opt_field(n, v).drop_first() =~= Seq::<(Seq<char>, Seq<char>)>::empty());
            assert(field_lookup(Seq::<(Seq<char>, Seq<char>)>::empty(), k) is None);
        },
        None => {
            assert(field_lookup(Seq::<(Seq<char>, Seq<char>)>::empty(), k) is None);
        },
    }
}

/// A lookup in the fields of a work's record, step by step over its parts.
proof fn lemma_lookup_record_fields(w: WorkMeta, k: Seq<char>)
    ensures
        field_lookup(bib_fields(w), k) == (if "author"@ == k && w.authors@.len() > 0 {
            Some(join_with(strings_view(w.authors@), " and "@))
        } else if "doi"@ == k {
            Some(w.doi@)
        } else if "journal"@ == k && w.journal is Some {
            opt_chars(w.journal)
        } else if "number"@ == k && w.issue is Some {
            opt_chars(w.issue)
        } else if "pages"@ == k && w.pages is Some {
            opt_chars(w.pages)
        } else if "publisher"@ == k && w.publisher is Some {
            opt_chars(w.publisher)
        } else if "title"@ == k && w.title is Some {
            opt_chars(w.title)
        } else if "volume"@ == k && w.volume is Some {
            opt_chars(w.volume)
        } else if "year"@ == k && w.year is Some {
            Some(int_decimal(w.year.unwrap() as int))
        } else {
            None
        }),
{
    let p1 = opt_field("author"@, author_field(strings_view(w.authors@)));
    let p2 = seq![("doi"@, w.doi@)];
    let p3 = opt_field("journal"@, opt_chars(w.journal));
    let p4 = opt_field("number"@, opt_chars(w.issue));
    let p5 = opt_field("pages"@, opt_chars(w.pages));
    let p6 = opt_field("publisher"@, opt_chars(w.publisher));
    let p7 = opt_field("title"@, opt_chars(w.title));
    let p8 = opt_field("volume"@, opt_chars(w.volume));
    let p9 = opt_field("year"@, year_field(w.year));
    lemma_lookup_opt_field("author"@, author_field(strings_view(w.authors@)), k);
    lemma_lookup_opt_field("doi"@, Some(w.doi@), k);
    assert(p2 =~= opt_field("doi"@, Some(w.doi@)));
    lemma_lookup_opt_field("journal"@, opt_chars(w.journal), k);
    lemma_lookup_opt_field("number"@, opt_chars(w.issue), k);
    lemma_lookup_opt_field("pages"@, opt_chars(w.pages), k);
    lemma_lookup_opt_field("publisher"@, opt_chars(w.publisher), k);
    lemma_lookup_opt_field("title"@, opt_chars(w.title), k);
    lemma_lookup_opt_field("volume"@, opt_chars(w.volume), k);
    lemma_lookup_opt_field("year"@, year_field(w.year), k);
    lemma_lookup_concat(p1, p2, k);
    lemma_lookup_concat(p1 + p2, p3, k);
    lemma_lookup_concat(p1 + p2 + p3, p4, k);
    lemma_lookup_concat(p1 + p2 + p3 + p4, p5, k);
    lemma_lookup_concat(p1 + p2 + p3 + p4 + p5, p6, k);
    lemma_lookup_concat(p1 + p2 + p3 + p4 + p5 + p6, p7, k);
    lemma_lookup_concat(p1 + p2 + p3 + p4 + p5 + p6 + p7, p8, k);
    lemma_lookup_concat(p1 + p2 + p3 + p4 + p5 + p6 + p7 + p8, p9, k);
}

/// The record of a work carries each of the work's values under its BibTeX
/// name: every author in order joined by ` and ` under `author`, the DOI
/// under `doi`, the journal under `journal`, the issue under `number`, the
/// pages, publisher, title and volume under their own names and the year's
/// numeral under `year`; a value the work lacks gives no field.
pub proof fn lemma_record_fields_hold_the_work(w: WorkMeta, style: KeyStyle)
    ensures
        field_lookup(bib_record_of(w, style).2, "author"@) == (if w.authors@.len() > 0 {
            Some(join_with(w.authors@.map_values(|a: String| a@), " and "@))
        } else {
            None
        }),
        field_lookup(bib_record_of(w, style).2, "doi"@) == Some(w.doi@),
        field_lookup(bib_record_of(w, style).2, "journal"@) == opt_chars(w.journal),
        field_lookup(bib_record_of(w, style).2, "number"@) == opt_chars(w.issue),
        field_lookup(bib_record_of(w, style).2, "pages"@) == opt_chars(w.pages),
        field_lookup(bib_record_of(w, style).2, "publisher"@) == opt_chars(w.publisher),
        field_lookup(bib_record_of(w, style).2, "title"@) == opt_chars(w.title),
        field_lookup(bib_record_of(w, style).2, "volume"@) == opt_chars(w.volume),
        field_lookup(bib_record_of(w, style).2, "year"@) == (match w.year {
            Some(y) => Some(int_decimal(y as int)),
            None => None,
        }),
{
    reveal_strlit("author");
    reveal_strlit("doi");
    reveal_strlit("journal");
    reveal_strlit("number");
    reveal_strlit("pages");
    reveal_strlit("publisher");
    reveal_strlit("title");
    reveal_strlit("volume");
    reveal_strlit("year");
    let names = seq![
        "author"@,
        "doi"@,
        "journal"@,
        "number"@,
        "pages"@,
        "publisher"@,
        "title"@,
        "volume"@,
        "year"@,
    ];
    assert forall|i: int, j: int| 0 <= i < 9 && 0 <= j < 9 && i != j implies names[i]
        != names[j] by {
        if names[i].len() == names[j].len() {
            assert(names[i][0] != names[j][0] || names[i][1] != names[j][1]);
        }
    }
    assert(names[0] != names[1] && names[0] != names[2] && names[0] != names[3] && names[0]
        != names[4] && names[0] != names[5] && names[0] != names[6] && names[0] != names[7]
        && names[0] != names[8]);
    assert(names[1] != names[2] && names[1] != names[3] && names[1] != names[4] && names[1]
        != names[5] && names[1] != names[6] && names[1] != names[7] && names[1] != names[8]);
    assert(names[2] != names[3] && names[2] != names[4] && names[2] != names[5] && names[2]
        != names[6] && names[2] != names[7] && names[2] != names[8]);
    assert(names[3] != names[4] && names[3] != names[5] && names[3] != names[6] && names[3]
        != names[7] && names[3] != names[8]);
    assert(names[4] != names[5] && names[4] != names[6] && names[4] != names[7] && names[4]
        != names[8]);
    assert(names[5] != names[6] && names[5] != names[7] && names[5] != names[8]);
    assert(names[6] != names[7] && names[6] != names[8]);
    assert(names[7] != names[8]);
    assert(strings_view(w.authors@) =~= w.authors@.map_values(|a: String| a@));
    lemma_lookup_record_fields(w, "author"@);
    lemma_lookup_record_fields(w, "doi"@);
    lemma_lookup_record_fields(w, "journal"@);
    lemma_lookup_record_fields(w, "number"@);
    lemma_lookup_record_fields(w, "pages"@);
    lemma_lookup_record_fields(w, "publisher"@);
    lemma_lookup_record_fields(w, "title"@);
    lemma_lookup_record_fields(w, "volume"@);
    lemma_lookup_record_fields(w, "year"@);
}

/// The entry type of a work's record follows the mapping table:
/// `journal-article` is `article`, `book` and `monograph` are `book`,
/// `book-chapter` is `inbook`, `proceedings-article` is `inproceedings`,
/// `dissertation` is `phdthesis`, `report` is `techreport`, and every other
/// type, or none, is `misc`.
pub proof fn lemma_entry_type_table(w: WorkMeta, style: KeyStyle)
    ensures
        opt_chars(w.work_type) == Some("journal-article"@) ==> bib_record_of(w, style).0
            == "article"@,
        opt_chars(w.work_type) == Some("book"@) ==> bib_record_of(w, style).0 == "book"@,
        opt_chars(w.work_type) == Some("monograph"@) ==> bib_record_of(w, style).0 == "book"@,
        opt_chars(w.work_type) == Some("book-chapter"@) ==> bib_record_of(w, style).0 == "inbook"@,
        opt_chars(w.work_type) == Some("proceedings-article"@) ==> bib_record_of(w, style).0
            == "inproceedings"@,
        opt_chars(w.work_type) == Some("dissertation"@) ==> bib_record_of(w, style).0
            == "phdthesis"@,
        opt_chars(w.work_type) == Some("report"@) ==> bib_record_of(w, style).0 == "techreport"@,
        opt_chars(w.work_type) != Some("journal-article"@) && opt_chars(w.work_type) != Some(
            "book"@,
        ) && opt_chars(w.work_type) != Some("monograph"@) && opt_chars(w.work_type) != Some(
            "book-chapter"@,
        ) && opt_chars(w.work_type) != Some("proceedings-article"@) && opt_chars(w.work_type)
            != Some("dissertation"@) && opt_chars(w.work_type) != Some("report"@)
            ==> bib_record_of(w, style).0 == "misc"@,
{
    reveal_strlit("journal-article");
    reveal_strlit("book");
    reveal_strlit("monograph");
    reveal_strlit("book-chapter");
    reveal_strlit("proceedings-article");
    reveal_strlit("dissertation");
    reveal_strlit("report");
    let names = seq![
        "journal-article"@,
        "book"@,
        "monograph"@,
        "book-chapter"@,
        "proceedings-article"@,
        "dissertation"@,
        "report"@,
    ];
    assert forall|i: int, j: int| 0 <= i < 7 && 0 <= j < 7 && i != j implies names[i]
        != names[j] by {
        if names[i].len() == names[j].len() {
            assert(names[i][0] != names[j][0]);
        }
    }
    assert(names[0] != names[1] && names[0] != names[2] && names[0] != names[3] && names[0]
        != names[4] && names[0] != names[5] && names[0] != names[6]);
    assert(names[1] != names[2] && names[1] != names[3] && names[1] != names[4] && names[1]
        != names[5] && names[1] != names[6]);
    assert(names[2] != names[3] && names[2] != names[4] && names[2] != names[5] && names[2]
        != names[6]);
    assert(names[3] != names[4] && names[3] != names[5] && names[3] != names[6]);
    assert(names[4] != names[5] && names[4] != names[6]);
    assert(names[5] != names[6]);
}

// ─── Laws of append planning ─────────────────────────────────────────────────

/// The committed keys are the existing keys followed by the keys written;
/// the committed DOIs are the existing DOIs followed by the non-empty DOIs
/// written; no more records are written than were given.
proof fn lemma_plan_shape(keys: Seq<Seq<char>>, dois: Seq<Seq<char>>, recs: Seq<EntryView>)
    ensures
        plan_state(keys, dois, recs).0 == keys + keys_of(plan_state(keys, dois, recs).2),
        plan_state(keys, dois, recs).1 == dois + nonempty_dois(plan_state(keys, dois, recs).2),
        plan_state(keys, dois, recs).2.len() <= recs.len(),
    decreases recs.len(),
{
    if recs.len() > 0 {
        lemma_plan_shape(keys, dois, recs.drop_last());
        let (k, d, out) = plan_state(keys, dois, recs.drop_last());
        let r = recs.last();
        let doi = record_doi(r);
        if !(doi.len() > 0 && d.contains(doi)) {
            let nk = resolved_key(r.1, k);
            let e = (r.0, nk, r.2);
            assert(out.push(e).drop_last() =~= out);
            assert(keys_of(out.push(e)) =~= keys_of(out).push(nk));
            assert(k.push(nk) =~= keys + keys_of(out.push(e)));
            assert(record_doi(e) == doi);
            if doi.len() > 0 {
                assert(d.push(doi) =~= dois + nonempty_dois(out.push(e)));
            } else {
                assert(d =~= dois + nonempty_dois(out.push(e)));
            }
        }
    }
}

/// Every non-empty DOI of the entries occurs among their non-empty DOIs.
proof fn lemma_nonempty_dois_contains(out: Seq<EntryView>, i: int)
    requires
        0 <= i < out.len(),
        record_doi(out[i]).len() > 0,
    ensures
        nonempty_dois(out).contains(record_doi(out[i])),
    decreases out.len(),
{
    if i < out.len() - 1 {
        lemma_nonempty_dois_contains(out.drop_last(), i);
        let p = nonempty_dois(out.drop_last());
        let j = choose|j: int| 0 <= j < p.len() && p[j] == record_doi(out[i]);
        if record_doi(out.last()).len() > 0 {
            assert(nonempty_dois(out)[j] == p[j]);
        }
    } else {
        let p = nonempty_dois(out.drop_last());
        assert(nonempty_dois(out)[p.len() as int] == record_doi(out[i]));
    }
}

/// The keys an append writes are new: none of them is already in the
/// bibliography, and no two of them are equal.
pub proof fn lemma_planned_keys_fresh(
    keys: Seq<Seq<char>>,
    dois: Seq<Seq<char>>,
    recs: Seq<EntryView>,
)
    ensures
        forall|i: int|
            0 <= i < planned_appends(keys, dois, recs).len() ==> !keys.contains(
                #[trigger] planned_appends(keys, dois, recs)[i].1,
            ),
        forall|i: int, j: int|
            0 <= i < j < planned_appends(keys, dois, recs).len() ==> (#[trigger] planned_appends(
                keys,
                dois,
                recs,
            )[i]).1 != (#[trigger] planned_appends(keys, dois, recs)[j]).1,
    decreases recs.len(),
{
    if recs.len() > 0 {
        lemma_planned_keys_fresh(keys, dois, recs.drop_last());
        lemma_plan_shape(keys, dois, recs.drop_last());
        let (k, d, out) = plan_state(keys, dois, recs.drop_last());
        let r = recs.last();
        let doi = record_doi(r);
        if !(doi.len() > 0 && d.contains(doi)) {
            let nk = resolved_key(r.1, k);
            lemma_resolved_key_is_free(r.1, k);
            let full = out.push((r.0, nk, r.2));
            assert(planned_appends(keys, dois, recs) == full);
            assert(out == planned_appends(keys, dois, recs.drop_last()));
            assert(!k.contains(nk));
            assert forall|i: int| 0 <= i < full.len() implies !keys.contains(
                #[trigger] full[i].1,
            ) by {
                if i == out.len() {
                    assert(full[i].1 == nk);
                    if keys.contains(nk) {
                        let j = choose|j: int| 0 <= j < keys.len() && keys[j] == nk;
                        assert(k[j] == keys[j]);
                        assert(k.contains(nk));
                    }
                } else {
                    assert(full[i] == out[i]);
                    assert(out[i] == planned_appends(keys, dois, recs.drop_last())[i]);
                }
            }
            assert forall|i: int, j: int| 0 <= i < j < full.len() implies (#[trigger] full[i]).1
                != (#[trigger] full[j]).1 by {
                assert(full[i] == out[i]);
                assert(out[i] == planned_appends(keys, dois, recs.drop_last())[i]);
                if j == out.len() {
                    assert(full[j].1 == nk);
                    assert(keys_of(out)[i] == out[i].1);
                    assert(k[keys.len() + i] == out[i].1);
                    if out[i].1 == nk {
                        assert(k.contains(nk));
                    }
                } else {
                    assert(full[j] == out[j]);
                    assert(out[j] == planned_appends(keys, dois, recs.drop_last())[j]);
                }
            }
        } else {
            assert(planned_appends(keys, dois, recs) == planned_appends(keys, dois, recs.drop_last()));
        }
    }
}

/// The DOIs an append writes are new: a non-empty DOI written is neither
/// already in the bibliography nor written twice in the batch.
pub proof fn lemma_planned_dois_fresh(
    keys: Seq<Seq<char>>,
    dois: Seq<Seq<char>>,
    recs: Seq<EntryView>,
)
    ensures
        forall|i: int|
            0 <= i < planned_appends(keys, dois, recs).len() && record_doi(
                #[trigger] planned_appends(keys, dois, recs)[i],
            ).len() > 0 ==> !dois.contains(record_doi(planned_appends(keys, dois, recs)[i])),
        forall|i: int, j: int|
            0 <= i < j < planned_appends(keys, dois, recs).len() && record_doi(
                #[trigger] planned_appends(keys, dois, recs)[i],
            ).len() > 0 ==> record_doi(planned_appends(keys, dois, recs)[i]) != record_doi(
                #[trigger] planned_appends(keys, dois, recs)[j],
            ),
    decreases recs.len(),
{
    if recs.len() > 0 {
        lemma_planned_dois_fresh(keys, dois, recs.drop_last());
        lemma_plan_shape(keys, dois, recs.drop_last());
        let (k, d, out) = plan_state(keys, dois, recs.drop_last());
        let r = recs.last();
        let doi = record_doi(r);
        if !(doi.len() > 0 && d.contains(doi)) {
            let nk = resolved_key(r.1, k);
            let e = (r.0, nk, r.2);
            let full = out.push(e);
            assert(planned_appends(keys, dois, recs) == full);
            assert(record_doi(e) == doi);
            assert(out == planned_appends(keys, dois, recs.drop_last()));
            assert forall|i: int|
                0 <= i < full.len() && record_doi(#[trigger] full[i]).len() > 0 implies !dois.contains(
                record_doi(full[i]),
            ) by {
                if i == out.len() {
                    assert(full[i] == e);
                    if dois.contains(doi) {
                        let j = choose|j: int| 0 <= j < dois.len() && dois[j] == doi;
                        assert(d[j] == doi);
                        assert(d.contains(doi));
                    }
                } else {
                    assert(full[i] == out[i]);
                    assert(out[i] == planned_appends(keys, dois, recs.drop_last())[i]);
                }
            }
            assert forall|i: int, j: int|
                0 <= i < j < full.len() && record_doi(#[trigger] full[i]).len() > 0 implies record_doi(
                full[i],
            ) != record_doi(#[trigger] full[j]) by {
                assert(full[i] == out[i]);
                assert(out[i] == planned_appends(keys, dois, recs.drop_last())[i]);
                if j == out.len() {
                    assert(full[j] == e);
                    lemma_nonempty_dois_contains(out, i);
                    let m = choose|m: int|
                        0 <= m < nonempty_dois(out).len() && nonempty_dois(out)[m] == record_doi(
                            out[i],
                        );
                    assert(d[dois.len() + m] == record_doi(out[i]));
                    if record_doi(out[i]) == doi {
                        assert(d.contains(doi));
                    }
                } else {
                    assert(full[j] == out[j]);
                    assert(out[j] == planned_appends(keys, dois, recs.drop_last())[j]);
                }
            }
        } else {
            assert(planned_appends(keys, dois, recs) == planned_appends(keys, dois, recs.drop_last()));
        }
    }
}

/// Appending records whose DOIs are all already present writes nothing, so
/// a repeated append of the same records is a no-op.
pub proof fn lemma_known_dois_write_nothing(
    keys: Seq<Seq<char>>,
    dois: Seq<Seq<char>>,
    recs: Seq<EntryView>,
)
    requires
        forall|i: int|
            0 <= i < recs.len() ==> record_doi(#[trigger] recs[i]).len() > 0 && dois.contains(
                record_doi(recs[i]),
            ),
    ensures
        planned_appends(keys, dois, recs).len() == 0,
    decreases recs.len(),
{
    if recs.len() > 0 {
        assert forall|i: int| 0 <= i < recs.drop_last().len() implies record_doi(
            #[trigger] recs.drop_last()[i],
        ).len() > 0 && dois.contains(record_doi(recs.drop_last()[i])) by {
            assert(recs.drop_last()[i] == recs[i]);
        }
        lemma_known_dois_write_nothing(keys, dois, recs.drop_last());
        lemma_plan_shape(keys, dois, recs.drop_last());
        let (k, d, out) = plan_state(keys, dois, recs.drop_last());
        assert(d =~= dois);
        let r = recs.last();
        assert(r == recs[recs.len() - 1]);
    }
}

/// Every record an append writes is one of the given records, with its
/// entry type and fields unchanged and its key the given key, possibly
/// followed by a suffix.
pub proof fn lemma_planned_records_come_from_input(
    keys: Seq<Seq<char>>,
    dois: Seq<Seq<char>>,
    recs: Seq<EntryView>,
)
    ensures
        forall|i: int|
            #![trigger planned_appends(keys, dois, recs)[i]]
            0 <= i < planned_appends(keys, dois, recs).len() ==> exists|j: int|
                0 <= j < recs.len() && (#[trigger] recs[j]).0 == planned_appends(
                    keys,
                    dois,
                    recs,
                )[i].0 && recs[j].2 == planned_appends(keys, dois, recs)[i].2
                    && planned_appends(keys, dois, recs)[i].1.len() >= recs[j].1.len()
                    && planned_appends(keys, dois, recs)[i].1.subrange(0, recs[j].1.len() as int)
                    == recs[j].1,
    decreases recs.len(),
{
    if recs.len() > 0 {
        let prev = recs.drop_last();
        lemma_planned_records_come_from_input(keys, dois, prev);
        let (k, d, out) = plan_state(keys, dois, prev);
        let r = recs.last();
        let doi = record_doi(r);
        let full = planned_appends(keys, dois, recs);
        assert(out == planned_appends(keys, dois, prev));
        assert forall|i: int| #![trigger full[i]] 0 <= i < full.len() implies exists|j: int|
            0 <= j < recs.len() && (#[trigger] recs[j]).0 == full[i].0 && recs[j].2 == full[i].2
                && full[i].1.len() >= recs[j].1.len() && full[i].1.subrange(
                0,
                recs[j].1.len() as int,
            ) == recs[j].1 by {
            if i < out.len() {
                assert(full[i] == out[i]);
                let j = choose|j: int|
                    0 <= j < prev.len() && (#[trigger] prev[j]).0 == out[i].0 && prev[j].2
                        == out[i].2 && out[i].1.len() >= prev[j].1.len() && out[i].1.subrange(
                        0,
                        prev[j].1.len() as int,
                    ) == prev[j].1;
                assert(recs[j] == prev[j]);
            } else {
                lemma_resolved_key_extends_base(r.1, k);
                assert(full[i] == (r.0, resolved_key(r.1, k), r.2));
                assert(recs[recs.len() - 1] == r);
            }
        }
    }
}

/// Records without a DOI are never deduplicated: when no record has one,
/// every record is written, in order, with its entry type and fields.
pub proof fn lemma_records_without_doi_all_written(
    keys: Seq<Seq<char>>,
    dois: Seq<Seq<char>>,
    recs: Seq<EntryView>,
)
    requires
        forall|i: int| 0 <= i < recs.len() ==> field_lookup((#[trigger] recs[i]).2, "doi"@) is None,
    ensures
        planned_appends(keys, dois, recs).len() == recs.len(),
        forall|i: int|
            0 <= i < recs.len() ==> (#[trigger] planned_appends(keys, dois, recs)[i]).0 == recs[i].0
                && planned_appends(keys, dois, recs)[i].2 == recs[i].2,
    decreases recs.len(),
{
    if recs.len() > 0 {
        let prev = recs.drop_last();
        assert forall|i: int| 0 <= i < prev.len() implies field_lookup((#[trigger] prev[i]).2, "doi"@)
            is None by {
            assert(prev[i] == recs[i]);
        }
        lemma_records_without_doi_all_written(keys, dois, prev);
        let r = recs.last();
        assert(r == recs[recs.len() - 1]);
        assert(record_doi(r).len() == 0);
        let out = planned_appends(keys, dois, prev);
        let full = planned_appends(keys, dois, recs);
        assert forall|i: int| 0 <= i < recs.len() implies (#[trigger] full[i]).0 == recs[i].0
            && full[i].2 == recs[i].2 by {
            if i < prev.len() {
                assert(full[i] == out[i]);
                assert(prev[i] == recs[i]);
            }
        }
    }
}

/// After planning, every non-empty DOI of the given records is among the
/// committed DOIs: it was there before, or it was written.
proof fn lemma_committed_dois_cover(keys: Seq<Seq<char>>, dois: Seq<Seq<char>>, recs: Seq<EntryView>)
    ensures
        forall|i: int|
            0 <= i < recs.len() && record_doi(#[trigger] recs[i]).len() > 0
                ==> plan_state(keys, dois, recs).1.contains(record_doi(recs[i])),
    decreases recs.len(),
{
    if recs.len() > 0 {
        let prev = recs.drop_last();
        lemma_committed_dois_cover(keys, dois, prev);
        let (k, d, out) = plan_state(keys, dois, prev);
        let r = recs.last();
        let doi = record_doi(r);
        let d2 = plan_state(keys, dois, recs).1;
        assert forall|x: Seq<char>| d.contains(x) implies d2.contains(x) by {
            let j = choose|j: int| 0 <= j < d.len() && d[j] == x;
            if !(doi.len() > 0 && d.contains(doi)) && doi.len() > 0 {
                assert(d2[j] == d[j]);
            }
        }
        assert forall|i: int|
            0 <= i < recs.len() && record_doi(#[trigger] recs[i]).len() > 0 implies d2.contains(
            record_doi(recs[i]),
        ) by {
            if i < prev.len() {
                assert(prev[i] == recs[i]);
            } else {
                assert(recs[i] == r);
                if !(doi.len() > 0 && d.contains(doi)) {
                    assert(d2[d.len() as int] == doi);
                }
            }
        }
    }
}

/// Appending the same records a second time, against the keys and DOIs the
/// first append left, writes nothing when every record has a DOI.
pub proof fn lemma_repeated_append_writes_nothing(
    keys: Seq<Seq<char>>,
    dois: Seq<Seq<char>>,
    recs: Seq<EntryView>,
)
    requires
        forall|i: int| 0 <= i < recs.len() ==> record_doi(#[trigger] recs[i]).len() > 0,
    ensures
        planned_appends(plan_state(keys, dois, recs).0, plan_state(keys, dois, recs).1, recs).len()
            == 0,
{
    lemma_committed_dois_cover(keys, dois, recs);
    let (k1, d1, out) = plan_state(keys, dois, recs);
    assert forall|i: int| 0 <= i < recs.len() implies record_doi(#[trigger] recs[i]).len() > 0
        && d1.contains(record_doi(recs[i])) by {}
    lemma_known_dois_write_nothing(k1, d1, recs);
}

// ─── Conversion ──────────────────────────────────────────────────────────────

/// Map a Crossref work type string to a BibTeX entry type.
pub fn work_type_to_bib_type(work_type: Option<&str>) -> (r: String)
    ensures
        r@ == bib_entry_type(
            match work_type {
                Some(t) => Some(t@),
                None => None,
            },
        ),
{
    match work_type {
        Some(t) => {
            if crate::text::str_eq(t, "journal-article") {
                "article".to_owned()
            } else if crate::text::str_eq(t, "book") || crate::text::str_eq(t, "monograph") {
                "book".to_owned()
            } else if crate::text::str_eq(t, "book-chapter") {
                "inbook".to_owned()
            } else if crate::text::str_eq(t, "proceedings-article") {
                "inproceedings".to_owned()
            } else if crate::text::str_eq(t, "dissertation") {
                "phdthesis".to_owned()
            } else if crate::text::str_eq(t, "report") {
                "techreport".to_owned()
            } else {
                "misc".to_owned()
            }
        },
        None => "misc".to_owned(),
    }
}

/// Every field name of `f` comes before `k`.
pub open spec fn names_below(f: Seq<(Seq<char>, Seq<char>)>, k: Seq<char>) -> bool {
    forall|i: int| 0 <= i < f.len() ==> char_seq_lt(#[trigger] f[i].0, k)
}

proof fn lemma_field_name_order()
    ensures
        char_seq_lt("author"@, "doi"@),
        char_seq_lt("doi"@, "journal"@),
        char_seq_lt("journal"@, "number"@),
        char_seq_lt("number"@, "pages"@),
        char_seq_lt("pages"@, "publisher"@),
        char_seq_lt("publisher"@, "title"@),
        char_seq_lt("title"@, "volume"@),
        char_seq_lt("volume"@, "year"@),
        char_seq_lt("year"@, seq!['z']),
{
    reveal_strlit("author");
    reveal_strlit("doi");
    reveal_strlit("journal");
    reveal_strlit("number");
    reveal_strlit("pages");
    reveal_strlit("publisher");
    reveal_strlit("title");
    reveal_strlit("volume");
    reveal_strlit("year");
    reveal_with_fuel(char_seq_lt, 3);
}

/// Appends the field `name` when `value` is present, keeping the names in
/// increasing order.
fn add_field(
    fields: &mut Vec<(String, String)>,
    name: &str,
    value: &Option<String>,
    Ghost(next): Ghost<Seq<char>>,
)
    requires
        names_increasing(pairs_view(old(fields)@)),
        names_below(pairs_view(old(fields)@), name@),
        char_seq_lt(name@, next),
    ensures
        pairs_view(final(fields)@) == pairs_view(old(fields)@) + opt_field(name@, opt_chars(*value)),
        names_increasing(pairs_view(final(fields)@)),
        names_below(pairs_view(final(fields)@), next),
{
    let ghost f0 = pairs_view(fields@);
    match value {
        Some(v) => {
            fields.push((name.to_owned(), v.clone()));
            assert(pairs_view(fields@) =~= f0 + seq![(name@, v@)]);
            assert forall|i: int| 0 <= i < f0.len() implies char_seq_lt(
                #[trigger] f0[i].0,
                next,
            ) by {
                crate::models::lemma_char_seq_lt_transitive(f0[i].0, name@, next);
            }
        },
        None => {
            assert(pairs_view(fields@) =~= f0 + seq![]);
            assert forall|i: int| 0 <= i < f0.len() implies char_seq_lt(
                #[trigger] f0[i].0,
                next,
            ) by {
                crate::models::lemma_char_seq_lt_transitive(f0[i].0, name@, next);
            }
        },
    }
}

/// The authors joined with ` and `.
fn join_authors(authors: &Vec<String>) -> (r: String)
    ensures
        r@ == join_with(strings_view(authors@), " and "@),
{
    let ghost names = strings_view(authors@);
    let mut out = String::new();
    let mut i: usize = 0;
    while i < authors.len()
        invariant
            names == strings_view(authors@),
            i <= authors@.len(),
            out@ == join_with(names.subrange(0, i as int), " and "@),
        decreases authors@.len() - i,
    {
        let ghost pre = names.subrange(0, i + 1);
        assert(pre.drop_last() =~= names.subrange(0, i as int));
        assert(pre.last() == authors@[i as int]@);
        if i > 0 {
            out.append(" and ");
        }
        out.append(authors[i].as_str());
        proof {
            if i == 0 {
                assert(out@ =~= pre[0]);
            }
        }
        i = i + 1;
    }
    assert(names.subrange(0, authors@.len() as int) =~= names);
    out
}

/// The record's fields, in name order.
fn fields_of(work: &WorkMeta) -> (r: Vec<(String, String)>)
    ensures
        pairs_view(r@) == bib_fields(*work),
        names_increasing(pairs_view(r@)),
{
    proof {
        lemma_field_name_order();
    }
    let mut fields: Vec<(String, String)> = Vec::new();
    let author: Option<String> = if work.authors.len() > 0 {
        Some(join_authors(&work.authors))
    } else {
        None
    };
    add_field(&mut fields, "author", &author, Ghost("doi"@));
    add_field(&mut fields, "doi", &Some(work.doi.clone()), Ghost("journal"@));
    add_field(&mut fields, "journal", &work.journal, Ghost("number"@));
    add_field(&mut fields, "number", &work.issue, Ghost("pages"@));
    add_field(&mut fields, "pages", &work.pages, Ghost("publisher"@));
    add_field(&mut fields, "publisher", &work.publisher, Ghost("title"@));
    add_field(&mut fields, "title", &work.title, Ghost("volume"@));
    add_field(&mut fields, "volume", &work.volume, Ghost("year"@));
    let year: Option<String> = match work.year {
        Some(y) => {
            let d = crate::text::i32_decimal(y);
            Some(crate::text::string_of(&d))
        },
        None => None,
    };
    let ghost z: Seq<char> = seq!['z'];
    add_field(&mut fields, "year", &year, Ghost(z));
    assert(pairs_view(fields@) =~= bib_fields(*work));
    fields
}

/// Convert a `WorkMeta` into a `BibRecord` using `AuthorYear` key style.
///
/// Conflict resolution against an existing bibliography must be handled by the
/// caller via [`crate::utils::resolve_key_conflict`] or by planning the append
/// with [`plan_bib_append`], which resolves conflicts automatically.
pub fn work_to_bib_record(work: &WorkMeta) -> (r: BibRecord)
    ensures
        r@ == bib_record_of(*work, KeyStyle::AuthorYear),
        r.wf(),
{
    work_to_bib_record_with_style(work, &KeyStyle::AuthorYear)
}

/// Convert a `WorkMeta` into a `BibRecord` with the specified key style.
pub fn work_to_bib_record_with_style(work: &WorkMeta, style: &KeyStyle) -> (r: BibRecord)
    ensures
        r@ == bib_record_of(*work, *style),
        r.wf(),
{
    let entry_key = generate_citation_key_by_style(work, style);
    let entry_type = match &work.work_type {
        Some(t) => work_type_to_bib_type(Some(t.as_str())),
        None => work_type_to_bib_type(None),
    };
    let fields = fields_of(work);
    BibRecord { entry_type, entry_key, fields }
}

// ─── Serialisation ───────────────────────────────────────────────────────────

/// A copy of `(name, value)` pairs.
fn copy_pairs(v: &Vec<(String, String)>) -> (r: Vec<(String, String)>)
    ensures
        pairs_view(r@) == pairs_view(v@),
{
    let mut r: Vec<(String, String)> = Vec::new();
    let mut i: usize = 0;
    while i < v.len()
        invariant
            i <= v@.len(),
            r@.len() == i,
            pairs_view(r@) == pairs_view(v@).subrange(0, i as int),
        decreases v@.len() - i,
    {
        let a = v[i].0.clone();
        let b = v[i].1.clone();
        let ghost r0 = r@;
        r.push((a, b));
        assert(r@ == r0.push((a, b)));
        assert(pairs_view(r@)[i as int] == pairs_view(v@)[i as int]);
        assert(pairs_view(r@) =~= pairs_view(v@).subrange(0, i + 1));
        i = i + 1;
    }
    assert(pairs_view(v@).subrange(0, v@.len() as int) =~= pairs_view(v@));
    r
}

/// Serialize a list of `BibRecord`s to a BibTeX string: the text
/// `serde_bibtex` produces for them, or a `Bibtex` error when it fails.
pub fn records_to_bibtex(records: &[BibRecord]) -> (r: Result<String, CrossrefError>)
    requires
        forall|i: int| 0 <= i < records@.len() ==> (#[trigger] records@[i]).wf(),
    ensures
        match r {
            Ok(s) => bibtex_text(records_view(records@)) == Some(s@),
            Err(e) => bibtex_text(records_view(records@)) is None && e is Bibtex,
        },
{
    let mut entries: Vec<(String, String, Vec<(String, String)>)> = Vec::new();
    let mut i: usize = 0;
    while i < records.len()
        invariant
            i <= records@.len(),
            entries@.len() == i,
            tuples_view(entries@) == records_view(records@).subrange(0, i as int),
        decreases records@.len() - i,
    {
        let rec = &records[i];
        let t = rec.entry_type.clone();
        let k = rec.entry_key.clone();
        let f = copy_pairs(&rec.fields);
        entries.push((t, k, f));
        assert(tuples_view(entries@)[i as int] == records_view(records@)[i as int]);
        assert(tuples_view(entries@) =~= records_view(records@).subrange(0, i + 1));
        i = i + 1;
    }
    assert(records_view(records@).subrange(0, records@.len() as int) =~= records_view(records@));
    match bibtex_to_string(&entries) {
        Ok(s) => Ok(s),
        Err(e) => Err(CrossrefError::Bibtex(bibtex_error_message(&e))),
    }
}

// ─── Parsing helpers ─────────────────────────────────────────────────────────

/// The keys and the `doi` values of entries that were read, in order;
/// entries that could not be read (`None`) count for nothing.
pub fn keys_and_dois_of(es: &Vec<Option<(String, String, Vec<(String, String)>)>>) -> (r: (
    Vec<String>,
    Vec<String>,
))
    ensures
        strings_view(r.0@) == entry_keys(opt_tuples_view(es@)),
        strings_view(r.1@) == entry_dois(opt_tuples_view(es@)),
{
    let ghost all = opt_tuples_view(es@);
    let mut keys: Vec<String> = Vec::new();
    let mut dois: Vec<String> = Vec::new();
    let mut i: usize = 0;
    while i < es.len()
        invariant
            all == opt_tuples_view(es@),
            i <= es@.len(),
            strings_view(keys@) == entry_keys(all.subrange(0, i as int)),
            strings_view(dois@) == entry_dois(all.subrange(0, i as int)),
        decreases es@.len() - i,
    {
        let ghost pre = all.subrange(0, i + 1);
        assert(pre.drop_last() =~= all.subrange(0, i as int));
        match &es[i] {
            Some(e) => {
                keys.push(e.1.clone());
                assert(strings_view(keys@) =~= entry_keys(pre));
                let rec = BibRecord {
                    entry_type: String::new(),
                    entry_key: String::new(),
                    fields: copy_pairs(&e.2),
                };
                match rec.get_field("doi") {
                    Some(d) => {
                        dois.push(d.clone());
                        assert(strings_view(dois@) =~= entry_dois(pre));
                    },
                    None => {
                        assert(strings_view(dois@) =~= entry_dois(pre));
                    },
                }
            },
            None => {
                assert(strings_view(keys@) =~= entry_keys(pre));
                assert(strings_view(dois@) =~= entry_dois(pre));
            },
        }
        i = i + 1;
    }
    assert(all.subrange(0, es@.len() as int) =~= all);
    (keys, dois)
}

/// Parse the citation keys that are already present in a `.bib` string.
pub fn parse_entry_keys(content: &str) -> (r: Vec<String>)
    ensures
        strings_view(r@) == entry_keys(bib_regular_entries(content@)),
{
    let es = read_regular_entries(content);
    keys_and_dois_of(&es).0
}

/// The citation keys and the `doi` values of the entries of a `.bib` string.
pub fn existing_keys_and_dois(content: &str) -> (r: (Vec<String>, Vec<String>))
    ensures
        strings_view(r.0@) == entry_keys(bib_regular_entries(content@)),
        strings_view(r.1@) == entry_dois(bib_regular_entries(content@)),
{
    let es = read_regular_entries(content);
    keys_and_dois_of(&es)
}

// ─── Append planning ─────────────────────────────────────────────────────────

/// Whether one of `v` equals `s`.
fn contains_string(v: &Vec<String>, s: &String) -> (r: bool)
    ensures
        r == strings_view(v@).contains(s@),
{
    let mut i: usize = 0;
    while i < v.len()
        invariant
            i <= v@.len(),
            forall|j: int| 0 <= j < i ==> v@[j]@ != s@,
        decreases v@.len() - i,
    {
        if v[i] == *s {
            assert(strings_view(v@)[i as int] == s@);
            return true;
        }
        i = i + 1;
    }
    assert forall|j: int| 0 <= j < strings_view(v@).len() implies strings_view(v@)[j] != s@ by {
        assert(strings_view(v@)[j] == v@[j]@);
    }
    false
}

/// The records to append to a bibliography whose keys are `existing_keys`
/// and whose DOIs are `existing_dois`, in order.
///
/// Deduplicates by DOI: a record whose DOI is already present, or was
/// queued earlier in the batch, is skipped. Each queued record gets its key
/// resolved against the existing keys and the keys queued before it, with
/// letter suffixes (`a`, `b`, …).
pub fn plan_bib_append(
    existing_keys: Vec<String>,
    existing_dois: Vec<String>,
    records: &[BibRecord],
) -> (r: Vec<BibRecord>)
    requires
        forall|i: int| 0 <= i < records@.len() ==> (#[trigger] records@[i]).wf(),
    ensures
        forall|i: int| 0 <= i < r@.len() ==> (#[trigger] r@[i]).wf(),
        records_view(r@) == planned_appends(
            strings_view(existing_keys@),
            strings_view(existing_dois@),
            records_view(records@),
        ),
{
    let ghost k0 = strings_view(existing_keys@);
    let ghost d0 = strings_view(existing_dois@);
    let ghost recs = records_view(records@);
    let mut committed_keys = existing_keys;
    let mut committed_dois = existing_dois;
    let mut new_records: Vec<BibRecord> = Vec::new();
    let mut i: usize = 0;
    while i < records.len()
        invariant
            recs == records_view(records@),
            i <= records@.len(),
            forall|j: int| 0 <= j < records@.len() ==> (#[trigger] records@[j]).wf(),
            forall|j: int| 0 <= j < new_records@.len() ==> (#[trigger] new_records@[j]).wf(),
            plan_state(k0, d0, recs.subrange(0, i as int)) == (
                strings_view(committed_keys@),
                strings_view(committed_dois@),
                records_view(new_records@),
            ),
        decreases records@.len() - i,
    {
        let ghost pre = recs.subrange(0, i + 1);
        assert(pre.drop_last() =~= recs.subrange(0, i as int));
        let record = &records[i];
        assert(pre.last() == record@);
        let doi_of_record: String = match record.get_field("doi") {
            Some(d) => d.clone(),
            None => String::new(),
        };
        assert(doi_of_record@ == record_doi(record@));
        if doi_of_record.unicode_len() > 0 && contains_string(&committed_dois, &doi_of_record) {
            i = i + 1;
            continue ;
        }
        let resolved = resolve_key_conflict(record.entry_key.as_str(), committed_keys.as_slice());
        let r = BibRecord {
            entry_type: record.entry_type.clone(),
            entry_key: resolved.clone(),
            fields: copy_pairs(&record.fields),
        };
        committed_keys.push(resolved);
        assert(strings_view(committed_keys@) =~= plan_state(k0, d0, pre).0);
        if doi_of_record.unicode_len() > 0 {
            committed_dois.push(doi_of_record);
            assert(strings_view(committed_dois@) =~= plan_state(k0, d0, pre).1);
        }
        new_records.push(r);
        assert(records_view(new_records@) =~= plan_state(k0, d0, pre).2);
        i = i + 1;
    }
    assert(recs.subrange(0, records@.len() as int) =~= recs);
    new_records
}

// ─── Appending to a `.bib` file ─────────────────────────────────────────────

/// The entries read from a file's content, or none when there is no file.
pub open spec fn existing_entries(content: Option<Seq<char>>) -> Seq<Option<EntryView>> {
    match content {
        Some(c) => bib_regular_entries(c),
        None => seq![],
    }
}

/// The text appended to a `.bib` file for one entry: its BibTeX text and a
/// newline, or `None` when it cannot be serialised.
pub open spec fn bib_file_chunk(e: EntryView) -> Option<Seq<char>> {
    match bibtex_text(seq![e]) {
        Some(t) => Some(t + "\n"@),
        None => None,
    }
}

/// The records an append to a `.bib` file with `content` (`None` when the
/// file does not exist) writes.
pub open spec fn file_appends(content: Option<Seq<char>>, recs: Seq<EntryView>) -> Seq<EntryView> {
    planned_appends(
        entry_keys(existing_entries(content)),
        entry_dois(existing_entries(content)),
        recs,
    )
}

pub open spec fn opt_str_view(o: Option<&str>) -> Option<Seq<char>> {
    match o {
        Some(s) => Some(s@),
        None => None,
    }
}

/// The text chunks to append to a `.bib` file whose content is `content`
/// (`None` when the file does not exist), in the order they are written:
/// one per record that `plan_bib_append` keeps against the file's keys and
/// DOIs, each that record's BibTeX text and a newline, or the error its
/// serialisation gives. The file's content after the append is its old
/// content followed by the chunks, up to the first error.
pub fn bib_file_appends(content: Option<&str>, records: &[BibRecord]) -> (r: Vec<
    Result<String, CrossrefError>,
>)
    requires
        forall|i: int| 0 <= i < records@.len() ==> (#[trigger] records@[i]).wf(),
    ensures
        r@.len() == file_appends(opt_str_view(content), records_view(records@)).len(),
        forall|i: int|
            0 <= i < r@.len() ==> match #[trigger] r@[i] {
                Ok(s) => bib_file_chunk(file_appends(opt_str_view(content), records_view(records@))[i])
                    == Some(s@),
                Err(e) => bib_file_chunk(
                    file_appends(opt_str_view(content), records_view(records@))[i],
                ) is None && e is Bibtex,
            },
{
    let ghost entries = existing_entries(opt_str_view(content));
    let (keys, dois) = match content {
        Some(c) => {
            assert(entries == bib_regular_entries(c@));
            existing_keys_and_dois(c)
        },
        None => {
            assert(entries =~= Seq::<Option<EntryView>>::empty());
            assert(entry_keys(entries) =~= Seq::<Seq<char>>::empty());
            assert(entry_dois(entries) =~= Seq::<Seq<char>>::empty());
            (Vec::new(), Vec::new())
        },
    };
    assert(strings_view(keys@) == entry_keys(entries));
    assert(strings_view(dois@) == entry_dois(entries));
    let planned = plan_bib_append(keys, dois, records);
    let ghost plan = records_view(planned@);
    let mut out: Vec<Result<String, CrossrefError>> = Vec::new();
    let mut i: usize = 0;
    while i < planned.len()
        invariant
            plan == records_view(planned@),
            plan == file_appends(opt_str_view(content), records_view(records@)),
            forall|j: int| 0 <= j < planned@.len() ==> (#[trigger] planned@[j]).wf(),
            i <= planned@.len(),
            out@.len() == i,
            forall|j: int|
                0 <= j < i ==> match #[trigger] out@[j] {
                    Ok(s) => bib_file_chunk(plan[j]) == Some(s@),
                    Err(e) => bib_file_chunk(plan[j]) is None && e is Bibtex,
                },
        decreases planned@.len() - i,
    {
        let p = &planned[i];
        let one_record = BibRecord {
            entry_type: p.entry_type.clone(),
            entry_key: p.entry_key.clone(),
            fields: copy_pairs(&p.fields),
        };
        assert(one_record@ == p@);
        assert(one_record.wf());
        let mut one: Vec<BibRecord> = Vec::new();
        one.push(one_record);
        assert(records_view(one@) =~= seq![plan[i as int]]);
        match records_to_bibtex(one.as_slice()) {
            Ok(text) => {
                let mut chunk = text;
                crate::text::push_char(&mut chunk, '\n');
                proof {
                    reveal_strlit("\n");
                }
                assert(chunk@ =~= bib_file_chunk(plan[i as int]).unwrap());
                out.push(Ok(chunk));
            },
            Err(e) => {
                out.push(Err(e));
            },
        }
        i = i + 1;
    }
    out
}

} // verus!
