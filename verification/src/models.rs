//! The data model: publication metadata, BibTeX records and search requests.
use vstd::prelude::*;

verus! {

/// The characters of an optional string.
pub open spec fn opt_chars(o: Option<String>) -> Option<Seq<char>> {
    match o {
        Some(s) => Some(s@),
        None => None,
    }
}

/// The characters of each string, in order.
pub open spec fn strings_view(s: Seq<String>) -> Seq<Seq<char>> {
    s.map_values(|x: String| x@)
}

/// The characters of each `(key, value)` pair, in order.
pub open spec fn pairs_view(s: Seq<(String, String)>) -> Seq<(Seq<char>, Seq<char>)> {
    s.map_values(|p: (String, String)| (p.0@, p.1@))
}

/// The value of the first pair whose key is `key`.
pub open spec fn field_lookup(fields: Seq<(Seq<char>, Seq<char>)>, key: Seq<char>) -> Option<
    Seq<char>,
>
    decreases fields.len(),
{
    if fields.len() == 0 {
        None
    } else if fields[0].0 == key {
        Some(fields[0].1)
    } else {
        field_lookup(fields.drop_first(), key)
    }
}

/// Lexicographic order on character sequences by code point (the order of
/// `String`'s `Ord`, since UTF-8 preserves code-point order).
pub open spec fn char_seq_lt(a: Seq<char>, b: Seq<char>) -> bool
    decreases a.len(),
{
    if b.len() == 0 {
        false
    } else if a.len() == 0 {
        true
    } else if a[0] != b[0] {
        (a[0] as u32) < (b[0] as u32)
    } else {
        char_seq_lt(a.drop_first(), b.drop_first())
    }
}

pub proof fn lemma_char_seq_lt_transitive(a: Seq<char>, b: Seq<char>, c: Seq<char>)
    requires
        char_seq_lt(a, b),
        char_seq_lt(b, c),
    ensures
        char_seq_lt(a, c),
    decreases a.len(),
{
    if a.len() > 0 && b.len() > 0 && c.len() > 0 && a[0] == b[0] && b[0] == c[0] {
        lemma_char_seq_lt_transitive(a.drop_first(), b.drop_first(), c.drop_first());
    }
}

/// Whether `a` comes before `b` in `String`'s order.
pub fn str_lt(a: &str, b: &str) -> (r: bool)
    ensures
        r == char_seq_lt(a@, b@),
{
    let na = a.unicode_len();
    let nb = b.unicode_len();
    let mut i: usize = 0;
    assert(a@.skip(0) =~= a@ && b@.skip(0) =~= b@);
    loop
        invariant
            na == a@.len(),
            nb == b@.len(),
            i <= na,
            i <= nb,
            char_seq_lt(a@, b@) == char_seq_lt(a@.skip(i as int), b@.skip(i as int)),
        decreases na - i,
    {
        if i == nb {
            return false;
        }
        if i == na {
            return true;
        }
        let ca = a.get_char(i);
        let cb = b.get_char(i);
        assert(a@.skip(i as int)[0] == ca && b@.skip(i as int)[0] == cb);
        if ca != cb {
            return (ca as u32) < (cb as u32);
        }
        assert(a@.skip(i as int).drop_first() =~= a@.skip(i + 1));
        assert(b@.skip(i as int).drop_first() =~= b@.skip(i + 1));
        i = i + 1;
    }
}

/// The field names are in strictly increasing order (so each occurs once).
pub open spec fn names_increasing(fields: Seq<(Seq<char>, Seq<char>)>) -> bool {
    forall|i: int, j: int|
        0 <= i < j < fields.len() ==> char_seq_lt(#[trigger] fields[i].0, #[trigger] fields[j].0)
}

/// Normalised metadata for a single publication, populated from the Crossref
/// `Work` response and optionally enriched with Unpaywall OA data.
#[derive(Debug, Clone)]
pub struct WorkMeta {
    pub doi: String,
    pub title: Option<String>,
    pub authors: Vec<String>,
    pub year: Option<i32>,
    /// Journal / book title (first element of `container-title`)
    pub journal: Option<String>,
    pub volume: Option<String>,
    pub issue: Option<String>,
    /// Page range, e.g. "123-145"
    pub pages: Option<String>,
    pub publisher: Option<String>,
    /// Crossref type string, e.g. "journal-article"
    pub work_type: Option<String>,
    // Unpaywall OA fields
    pub is_oa: Option<bool>,
    pub oa_status: Option<String>,
    pub pdf_url: Option<String>,
}

impl Default for WorkMeta {
    fn default() -> (r: Self)
        ensures
            r.doi@ == Seq::<char>::empty(),
            r.title is None,
            r.authors@.len() == 0,
            r.year is None,
            r.journal is None,
            r.volume is None,
            r.issue is None,
            r.pages is None,
            r.publisher is None,
            r.work_type is None,
            r.is_oa is None,
            r.oa_status is None,
            r.pdf_url is None,
    {
        WorkMeta {
            doi: String::new(),
            title: None,
            authors: Vec::new(),
            year: None,
            journal: None,
            volume: None,
            issue: None,
            pages: None,
            publisher: None,
            work_type: None,
            is_oa: None,
            oa_status: None,
            pdf_url: None,
        }
    }
}

/// A single BibTeX entry. The fields are `(name, value)` pairs held in
/// strictly increasing name order, so each name occurs once and the entry
/// serialises in a deterministic order.
#[derive(Debug, Clone)]
pub struct BibRecord {
    pub entry_type: String,
    pub entry_key: String,
    pub fields: Vec<(String, String)>,
}

impl View for BibRecord {
    type V = (Seq<char>, Seq<char>, Seq<(Seq<char>, Seq<char>)>);

    open spec fn view(&self) -> Self::V {
        (self.entry_type@, self.entry_key@, pairs_view(self.fields@))
    }
}

impl BibRecord {
    /// The fields are held in strictly increasing name order.
    pub open spec fn wf(&self) -> bool {
        names_increasing(pairs_view(self.fields@))
    }

    /// Whether the fields are in strictly increasing name order, as every
    /// record of this library holds them.
    pub fn has_ordered_fields(&self) -> (r: bool)
        ensures
            r == self.wf(),
    {
        let ghost f = pairs_view(self.fields@);
        let n = self.fields.len();
        if n == 0 {
            return true;
        }
        let mut i: usize = 0;
        while i + 1 < n
            invariant
                n == self.fields@.len(),
                f == pairs_view(self.fields@),
                n >= 1,
                i + 1 <= n,
                forall|p: int, q: int| 0 <= p < q <= i ==> char_seq_lt(#[trigger] f[p].0, #[trigger] f[q].0),
            decreases n - i,
        {
            if !str_lt(self.fields[i].0.as_str(), self.fields[i + 1].0.as_str()) {
                assert(!char_seq_lt(f[i as int].0, f[i + 1].0));
                return false;
            }
            assert forall|p: int, q: int| 0 <= p < q <= i + 1 implies char_seq_lt(
                #[trigger] f[p].0,
                #[trigger] f[q].0,
            ) by {
                if q == i + 1 && p < i {
                    lemma_char_seq_lt_transitive(f[p].0, f[i as int].0, f[q].0);
                }
            }
            i = i + 1;
        }
        true
    }

    /// The value of the field `name`, if the record has one.
    pub fn get_field(&self, name: &str) -> (r: Option<&String>)
        ensures
            match r {
                Some(v) => field_lookup(pairs_view(self.fields@), name@) == Some(v@),
                None => field_lookup(pairs_view(self.fields@), name@) is None,
            },
    {
        let mut i: usize = 0;
        assert(pairs_view(self.fields@).skip(0) =~= pairs_view(self.fields@));
        while i < self.fields.len()
            invariant
                i <= self.fields@.len(),
                field_lookup(pairs_view(self.fields@), name@) == field_lookup(
                    pairs_view(self.fields@).skip(i as int),
                    name@,
                ),
            decreases self.fields@.len() - i,
        {
            let ghost rest = pairs_view(self.fields@).skip(i as int);
            assert(rest.drop_first() =~= pairs_view(self.fields@).skip(i + 1));
            if crate::text::str_eq(self.fields[i].0.as_str(), name) {
                return Some(&self.fields[i].1);
            }
            i = i + 1;
        }
        None
    }
}

impl Default for BibRecord {
    fn default() -> (r: Self)
        ensures
            r.entry_type@ == Seq::<char>::empty(),
            r.entry_key@ == Seq::<char>::empty(),
            r.fields@.len() == 0,
    {
        BibRecord { entry_type: String::new(), entry_key: String::new(), fields: Vec::new() }
    }
}

/// Parameters for a Crossref works search request.
#[derive(Debug, Clone)]
pub struct SearchQuery {
    pub query: Option<String>,
    pub title: Option<String>,
    pub author: Option<String>,
    pub year_from: Option<i32>,
    pub year_to: Option<i32>,
    /// Crossref type filter, e.g. "journal-article"
    pub work_type: Option<String>,
    pub open_access: bool,
    pub rows: u32,
    pub sort: Option<String>,
}

impl Default for SearchQuery {
    fn default() -> (r: Self)
        ensures
            r.query is None,
            r.title is None,
            r.author is None,
            r.year_from is None,
            r.year_to is None,
            r.work_type is None,
            !r.open_access,
            r.rows == 10,
            r.sort is None,
    {
        SearchQuery {
            query: None,
            title: None,
            author: None,
            year_from: None,
            year_to: None,
            work_type: None,
            open_access: false,
            rows: 10,
            sort: None,
        }
    }
}

/// Paged result set returned by a search request.
#[derive(Debug, Clone)]
pub struct SearchResult {
    pub items: Vec<WorkMeta>,
    pub total_results: u64,
}

} // verus!
