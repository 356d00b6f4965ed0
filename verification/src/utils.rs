//! Citation keys, key-conflict resolution and DOI normalisation.
use vstd::prelude::*;

use crate::models::{opt_chars, strings_view, WorkMeta};
use crate::text::{
    append_chars, append_str, lemma_concat_push, capitalise_chars, capitalised, char_is_alphabetic,
    char_is_alphanumeric, chars_eq_str, chars_of, concat_all, i32_decimal, int_decimal,
    keep_alphabetic, keep_alphanumeric, keep_chars, lowercase_of, split_whitespace_chars,
    split_ws, lowercased, alphabetic, all_ascii, ascii_lower, char_uppercase, string_of, is_white_space, starts_with, trim_start_ws, sub_chars, trim_chars, trim_start_matches,
    trim_start_matches_chars, trim_end_ws, trim_ws,
};

verus! {

/// Citation key generation style.
#[derive(Debug, Clone, Copy, PartialEq, Eq, Structural)]
pub enum KeyStyle {
    /// Author last-name(s) + year, e.g. `Smith2024`.
    AuthorYear,
    /// Significant title words + year, e.g. `MachineLearning2024`.
    ShortTitle,
}

// ─── Specifications ─────────────────────────────────────────────────────────

/// The text of `a` before its first `,` (all of `a` when it has none).
pub open spec fn before_comma(a: Seq<char>) -> Seq<char>
    decreases a.len(),
{
    if a.len() == 0 || a[0] == ',' {
        seq![]
    } else {
        seq![a[0]] + before_comma(a.drop_first())
    }
}

/// The family name of an author stored as "Family, Given" or "Family".
pub open spec fn family_name(a: Seq<char>) -> Seq<char> {
    trim_ws(before_comma(a))
}

/// The family names of `authors`, capitalised, with empty ones dropped, in
/// order.
pub open spec fn surname_parts(authors: Seq<Seq<char>>) -> Seq<Seq<char>>
    decreases authors.len(),
{
    if authors.len() == 0 {
        seq![]
    } else {
        let c = capitalised(family_name(authors.last()));
        let rest = surname_parts(authors.drop_last());
        if c.len() > 0 {
            rest.push(c)
        } else {
            rest
        }
    }
}

/// At most the first `n` elements of `s`.
pub open spec fn first_n<A>(s: Seq<A>, n: nat) -> Seq<A> {
    if s.len() <= n {
        s
    } else {
        s.take(n as int)
    }
}

/// The author part of an author-year key: the first two authors' family
/// names, capitalised and concatenated.
pub open spec fn author_part(authors: Seq<Seq<char>>) -> Seq<char> {
    concat_all(surname_parts(first_n(authors, 2)))
}

/// The year part of a key: the year's numeral, or nothing.
pub open spec fn year_part(year: Option<i32>) -> Seq<char> {
    match year {
        Some(y) => int_decimal(y as int),
        None => seq![],
    }
}

/// A key from its main part and year, with `Unknown` standing in for an
/// empty main part.
pub open spec fn key_with_year(main: Seq<char>, year: Option<i32>) -> Seq<char> {
    if main.len() == 0 {
        "Unknown"@ + year_part(year)
    } else {
        main + year_part(year)
    }
}

/// The author-year citation key, e.g. `Smith2024` or `SmithJones2024`.
pub open spec fn author_year_key(authors: Seq<Seq<char>>, year: Option<i32>) -> Seq<char> {
    key_with_year(author_part(authors), year)
}

/// The words that the short-title style ignores.
pub open spec fn stop_word(w: Seq<char>) -> bool {
    ||| w == "a"@
    ||| w == "an"@
    ||| w == "the"@
    ||| w == "of"@
    ||| w == "in"@
    ||| w == "on"@
    ||| w == "at"@
    ||| w == "to"@
    ||| w == "for"@
    ||| w == "and"@
    ||| w == "or"@
    ||| w == "by"@
    ||| w == "with"@
    ||| w == "is"@
    ||| w == "are"@
    ||| w == "was"@
    ||| w == "were"@
    ||| w == "from"@
    ||| w == "as"@
    ||| w == "into"@
    ||| w == "that"@
    ||| w == "this"@
    ||| w == "its"@
    ||| w == "be"@
    ||| w == "has"@
    ||| w == "have"@
    ||| w == "had"@
}

/// A title word counts when its letters, lowercased, are non-empty and not a
/// stop word.
pub open spec fn significant_word(w: Seq<char>) -> bool {
    let lower = lowercased(keep_chars(w, |c: char| alphabetic(c)));
    lower.len() > 0 && !stop_word(lower)
}

/// The significant words of `words`, in order.
pub open spec fn significant_words(words: Seq<Seq<char>>) -> Seq<Seq<char>>
    decreases words.len(),
{
    if words.len() == 0 {
        seq![]
    } else if significant_word(words.last()) {
        significant_words(words.drop_last()).push(words.last())
    } else {
        significant_words(words.drop_last())
    }
}

/// Each word reduced to its alphanumeric characters and capitalised; empty
/// results dropped.
pub open spec fn title_parts(words: Seq<Seq<char>>) -> Seq<Seq<char>>
    decreases words.len(),
{
    if words.len() == 0 {
        seq![]
    } else {
        let c = capitalised(keep_chars(words.last(), |ch: char| char_is_alphanumeric(ch)));
        let rest = title_parts(words.drop_last());
        if c.len() > 0 {
            rest.push(c)
        } else {
            rest
        }
    }
}

/// The title part of a short-title key: the first four significant words.
pub open spec fn title_part(title: Option<Seq<char>>) -> Seq<char> {
    let t = match title {
        Some(t) => t,
        None => seq![],
    };
    concat_all(title_parts(first_n(significant_words(split_ws(t)), 4)))
}

/// The short-title citation key, e.g. `MachineLearning2024`.
pub open spec fn short_title_key(title: Option<Seq<char>>, year: Option<i32>) -> Seq<char> {
    key_with_year(title_part(title), year)
}

/// The short-title key of a title given as its words.
pub open spec fn short_title_words_key(words: Seq<Seq<char>>, year: Option<i32>) -> Seq<char> {
    key_with_year(concat_all(title_parts(first_n(significant_words(words), 4))), year)
}

/// The key of `work` in the given style.
pub open spec fn key_by_style(work: WorkMeta, style: KeyStyle) -> Seq<char> {
    match style {
        KeyStyle::AuthorYear => author_year_key(strings_view(work.authors@), work.year),
        KeyStyle::ShortTitle => short_title_key(opt_chars(work.title), work.year),
    }
}

/// The letter `a`, `b`, ... for `i = 0, 1, ...`.
pub open spec fn suffix_letter(i: int) -> char {
    (97 + i) as char
}

/// The suffix numbered `n >= 1`, in the order `a` ... `z`, `aa` ... `zz`,
/// `aaa`, ...: `n` written in bijective base 26 with the letters as digits.
pub open spec fn suffix_of(n: int) -> Seq<char>
    decreases n,
{
    if n < 1 {
        seq![]
    } else if n <= 26 {
        seq![suffix_letter(n - 1)]
    } else {
        suffix_of((n - 1) / 26).push(suffix_letter((n - 1) % 26))
    }
}

/// Candidate `k` for a key: the base for `k = 0`, then the base followed by
/// suffix `k`.
pub open spec fn conflict_candidate(base: Seq<char>, k: int) -> Seq<char> {
    if k == 0 {
        base
    } else {
        base + suffix_of(k)
    }
}

/// The first candidate from `k` on that is not taken. Among the first
/// `taken.len() + 1` candidates one is always free, so the search ends there.
pub open spec fn first_free_from(base: Seq<char>, taken: Seq<Seq<char>>, k: int) -> Seq<char>
    decreases taken.len() + 1 - k,
{
    if k < 0 || k > taken.len() {
        conflict_candidate(base, k)
    } else if !taken.contains(conflict_candidate(base, k)) {
        conflict_candidate(base, k)
    } else {
        first_free_from(base, taken, k + 1)
    }
}

/// The key that conflict resolution gives `base` among the keys `taken`.
pub open spec fn resolved_key(base: Seq<char>, taken: Seq<Seq<char>>) -> Seq<char> {
    first_free_from(base, taken, 0)
}

/// The DOI with surrounding whitespace and any URL or `doi:` prefixes removed.
pub open spec fn doi_normalised(doi: Seq<char>) -> Seq<char> {
    let s0 = trim_ws(doi);
    let s1 = trim_start_matches(s0, "https://doi.org/"@);
    let s2 = trim_start_matches(s1, "http://doi.org/"@);
    let s3 = trim_start_matches(s2, "https://dx.doi.org/"@);
    let s4 = trim_start_matches(s3, "http://dx.doi.org/"@);
    trim_start_matches(s4, "doi:"@)
}

// ─── Properties of conflict resolution ──────────────────────────────────────

/// A suffix has one letter exactly for the numbers up to 26, and more after.
proof fn lemma_suffix_len(n: int)
    requires
        n >= 1,
    ensures
        suffix_of(n).len() >= 1,
        (suffix_of(n).len() == 1) == (n <= 26),
    decreases n,
{
    if n > 26 {
        assert((n - 1) / 26 >= 1 && (n - 1) / 26 < n) by (nonlinear_arith)
            requires
                n > 26,
        ;
        lemma_suffix_len((n - 1) / 26);
    }
}

/// Distinct numbers have distinct suffixes.
proof fn lemma_suffix_injective(i: int, j: int)
    requires
        i >= 1,
        j >= 1,
        suffix_of(i) == suffix_of(j),
    ensures
        i == j,
    decreases i,
{
    lemma_suffix_len(i);
    lemma_suffix_len(j);
    let si = suffix_of(i);
    let sj = suffix_of(j);
    if i <= 26 && j <= 26 {
        assert(si[0] == sj[0]);
        assert(suffix_letter(i - 1) == suffix_letter(j - 1));
    } else if i > 26 && j > 26 {
        let qi = (i - 1) / 26;
        let qj = (j - 1) / 26;
        assert(qi >= 1 && qi < i && qj >= 1) by (nonlinear_arith)
            requires
                i > 26,
                j > 26,
                qi == (i - 1) / 26,
                qj == (j - 1) / 26,
        ;
        assert(si.last() == sj.last());
        assert(suffix_letter((i - 1) % 26) == suffix_letter((j - 1) % 26));
        assert((i - 1) % 26 == (j - 1) % 26);
        assert(si.drop_last() =~= suffix_of(qi));
        assert(sj.drop_last() =~= suffix_of(qj));
        lemma_suffix_injective(qi, qj);
        assert(i == j) by (nonlinear_arith)
            requires
                qi == (i - 1) / 26,
                qj == (j - 1) / 26,
                qi == qj,
                (i - 1) % 26 == (j - 1) % 26,
        ;
    } else {
        assert(si.len() != sj.len());
    }
}

/// Distinct indices give distinct candidates.
pub proof fn lemma_candidates_distinct(base: Seq<char>, i: int, j: int)
    requires
        0 <= i < j,
    ensures
        conflict_candidate(base, i) != conflict_candidate(base, j),
{
    lemma_suffix_len(j);
    let cj = conflict_candidate(base, j);
    if i == 0 {
        assert(base.len() != cj.len());
    } else {
        lemma_suffix_len(i);
        let ci = conflict_candidate(base, i);
        if ci == cj {
            assert(ci.subrange(base.len() as int, ci.len() as int) =~= suffix_of(i));
            assert(cj.subrange(base.len() as int, cj.len() as int) =~= suffix_of(j));
            lemma_suffix_injective(i, j);
        }
    }
}

/// One of the first `taken.len() + 1` candidates is not taken.
proof fn lemma_some_candidate_free(base: Seq<char>, taken: Seq<Seq<char>>)
    ensures
        exists|k: int| 0 <= k <= taken.len() && !taken.contains(#[trigger] conflict_candidate(base, k)),
{
    if forall|k: int| 0 <= k <= taken.len() ==> taken.contains(#[trigger] conflict_candidate(base, k)) {
        let cands = Seq::new((taken.len() + 1) as nat, |j: int| conflict_candidate(base, j));
        assert forall|i: int, j: int|
            0 <= i < cands.len() && 0 <= j < cands.len() && i != j implies cands[i]
            != cands[j] by {
            if i < j {
                lemma_candidates_distinct(base, i, j);
            } else {
                lemma_candidates_distinct(base, j, i);
            }
        }
        cands.unique_seq_to_set();
        assert forall|c: Seq<char>| cands.to_set().contains(c) implies taken.to_set().contains(
            c,
        ) by {
            let j = choose|j: int| 0 <= j < cands.len() && cands[j] == c;
            assert(taken.contains(conflict_candidate(base, j)));
        }
        taken.lemma_cardinality_of_set();
        vstd::set_lib::lemma_len_subset(cands.to_set(), taken.to_set());
        assert(false);
    }
}

/// The search from candidate `k` finds a free key when a free candidate
/// lies at or after `k`.
proof fn lemma_first_free(base: Seq<char>, taken: Seq<Seq<char>>, k: int, f: int)
    requires
        0 <= k <= f <= taken.len(),
        !taken.contains(conflict_candidate(base, f)),
    ensures
        !taken.contains(first_free_from(base, taken, k)),
    decreases taken.len() + 1 - k,
{
    if taken.contains(conflict_candidate(base, k)) {
        lemma_first_free(base, taken, k + 1, f);
    }
}

/// Conflict resolution always gives a key that is not taken.
pub proof fn lemma_resolved_key_is_free(base: Seq<char>, taken: Seq<Seq<char>>)
    ensures
        !taken.contains(resolved_key(base, taken)),
{
    lemma_some_candidate_free(base, taken);
    let f = choose|k: int| 0 <= k <= taken.len() && !taken.contains(#[trigger] conflict_candidate(base, k));
    lemma_first_free(base, taken, 0, f);
}

/// The candidates in order: the base, the base with one letter `a` ... `z`,
/// then with two letters `aa`, `ab`, ... `zz`.
pub proof fn lemma_candidate_order(base: Seq<char>, k: int)
    requires
        0 <= k <= 702,
    ensures
        k == 0 ==> conflict_candidate(base, k) == base,
        1 <= k <= 26 ==> conflict_candidate(base, k) == base.push(suffix_letter(k - 1)),
        27 <= k ==> conflict_candidate(base, k) == base.push(suffix_letter((k - 27) / 26)).push(
            suffix_letter((k - 27) % 26),
        ),
{
    if 27 <= k {
        let q = (k - 1) / 26;
        assert(1 <= q <= 26 && q - 1 == (k - 27) / 26 && (k - 1) % 26 == (k - 27) % 26)
            by (nonlinear_arith)
            requires
                27 <= k <= 702,
                q == (k - 1) / 26,
        ;
        assert(suffix_of(q) =~= seq![suffix_letter(q - 1)]);
        assert(conflict_candidate(base, k) =~= base.push(suffix_letter((k - 27) / 26)).push(
            suffix_letter((k - 27) % 26),
        ));
    } else if k >= 1 {
        assert(conflict_candidate(base, k) =~= base.push(suffix_letter(k - 1)));
    }
}

/// Conflict resolution gives the first candidate that is not taken: when
/// every candidate before `k` is taken and candidate `k` is not, the key is
/// candidate `k`. In particular the key is the base exactly when the base is
/// not taken.
pub proof fn lemma_resolved_key_is_first_free(base: Seq<char>, taken: Seq<Seq<char>>, k: int)
    requires
        0 <= k,
        !taken.contains(conflict_candidate(base, k)),
        forall|j: int| 0 <= j < k ==> taken.contains(#[trigger] conflict_candidate(base, j)),
    ensures
        resolved_key(base, taken) == conflict_candidate(base, k),
        (resolved_key(base, taken) == base) == !taken.contains(base),
{
    lemma_some_candidate_free(base, taken);
    let f = choose|f: int| 0 <= f <= taken.len() && !taken.contains(#[trigger] conflict_candidate(base, f));
    if f < k {
        assert(taken.contains(conflict_candidate(base, f)));
    }
    lemma_first_free_is(base, taken, 0, k);
    lemma_resolved_key_is_free(base, taken);
}

proof fn lemma_first_free_is(base: Seq<char>, taken: Seq<Seq<char>>, i: int, k: int)
    requires
        0 <= i <= k <= taken.len(),
        !taken.contains(conflict_candidate(base, k)),
        forall|j: int| 0 <= j < k ==> taken.contains(#[trigger] conflict_candidate(base, j)),
    ensures
        first_free_from(base, taken, i) == conflict_candidate(base, k),
    decreases k - i,
{
    if i < k {
        assert(taken.contains(conflict_candidate(base, i)));
        lemma_first_free_is(base, taken, i + 1, k);
    }
}

/// A resolved key is the base key when the base key is free, and otherwise
/// starts with the base key.
pub proof fn lemma_resolved_key_extends_base(base: Seq<char>, taken: Seq<Seq<char>>)
    ensures
        !taken.contains(base) ==> resolved_key(base, taken) == base,
        resolved_key(base, taken).len() >= base.len(),
        resolved_key(base, taken).subrange(0, base.len() as int) == base,
{
    lemma_resolved_prefix(base, taken, 0);
}

proof fn lemma_resolved_prefix(base: Seq<char>, taken: Seq<Seq<char>>, k: int)
    requires
        0 <= k,
    ensures
        first_free_from(base, taken, k).len() >= base.len(),
        first_free_from(base, taken, k).subrange(0, base.len() as int) == base,
    decreases taken.len() + 1 - k,
{
    if k <= taken.len() && taken.contains(conflict_candidate(base, k)) {
        lemma_resolved_prefix(base, taken, k + 1);
    } else {
        let r = first_free_from(base, taken, k);
        assert(r.subrange(0, base.len() as int) =~= base);
    }
}

// ─── Properties of keys and DOIs ─────────────────────────────────────────────

/// The author-year key reads at most two family names, and the short-title
/// key at most four title words.
pub proof fn lemma_key_part_counts(authors: Seq<Seq<char>>, title: Seq<char>)
    ensures
        surname_parts(first_n(authors, 2)).len() <= 2,
        title_parts(first_n(significant_words(split_ws(title)), 4)).len() <= 4,
{
    lemma_surname_parts_len(first_n(authors, 2));
    lemma_title_parts_len(first_n(significant_words(split_ws(title)), 4));
}

proof fn lemma_surname_parts_len(a: Seq<Seq<char>>)
    ensures
        surname_parts(a).len() <= a.len(),
    decreases a.len(),
{
    if a.len() > 0 {
        lemma_surname_parts_len(a.drop_last());
    }
}

proof fn lemma_title_parts_len(w: Seq<Seq<char>>)
    ensures
        title_parts(w).len() <= w.len(),
    decreases w.len(),
{
    if w.len() > 0 {
        lemma_title_parts_len(w.drop_last());
    }
}

/// The URL and `doi:` prefixes that normalisation removes, in the order it
/// removes them.
pub open spec fn doi_prefixes() -> Seq<Seq<char>> {
    seq![
        "https://doi.org/"@,
        "http://doi.org/"@,
        "https://dx.doi.org/"@,
        "http://dx.doi.org/"@,
        "doi:"@,
    ]
}

/// A DOI as normalisation leaves it: non-empty, no whitespace at either end,
/// and not starting with any of the prefixes.
pub open spec fn bare_doi(d: Seq<char>) -> bool {
    &&& d.len() > 0
    &&& !is_white_space(d[0])
    &&& !is_white_space(d.last())
    &&& forall|i: int| 0 <= i < 5 ==> !starts_with(d, #[trigger] doi_prefixes()[i])
}

proof fn lemma_not_prefix(s: Seq<char>, p: Seq<char>, k: int)
    requires
        0 <= k < p.len(),
        k < s.len(),
        s[k] != p[k],
    ensures
        !starts_with(s, p),
{
    if p.len() <= s.len() {
        assert(s.subrange(0, p.len() as int)[k] != p[k]);
    }
}

proof fn lemma_strip_once(p: Seq<char>, d: Seq<char>)
    requires
        p.len() > 0,
        !starts_with(d, p),
    ensures
        trim_start_matches(p + d, p) == d,
{
    assert((p + d).subrange(0, p.len() as int) =~= p);
    assert((p + d).skip(p.len() as int) =~= d);
    assert(starts_with(p + d, p));
    assert(trim_start_matches(p + d, p) == trim_start_matches(d, p));
}

/// A text that starts and ends with non-whitespace is its own trim.
proof fn lemma_trim_noop(s: Seq<char>)
    requires
        s.len() > 0,
        !is_white_space(s[0]),
        !is_white_space(s.last()),
    ensures
        trim_ws(s) == s,
{
    assert(trim_start_ws(s) == s);
}

/// The last four removal steps of normalisation leave `d` unchanged.
proof fn lemma_later_steps_keep(d: Seq<char>, from: int)
    requires
        bare_doi(d),
        1 <= from <= 5,
    ensures
        from <= 1 ==> trim_start_matches(d, doi_prefixes()[1]) == d,
        from <= 2 ==> trim_start_matches(d, doi_prefixes()[2]) == d,
        from <= 3 ==> trim_start_matches(d, doi_prefixes()[3]) == d,
        from <= 4 ==> trim_start_matches(d, doi_prefixes()[4]) == d,
{
    let ps = doi_prefixes();
    assert(!starts_with(d, ps[1]) && !starts_with(d, ps[2]) && !starts_with(d, ps[3])
        && !starts_with(d, ps[4]));
}

/// Normalisation leaves a bare DOI unchanged.
pub proof fn lemma_normalise_keeps_bare_doi(d: Seq<char>)
    requires
        bare_doi(d),
    ensures
        doi_normalised(d) == d,
{
    let ps = doi_prefixes();
    assert(!starts_with(d, ps[0]));
    lemma_trim_noop(d);
    lemma_later_steps_keep(d, 1);
}

proof fn lemma_strip_case_0(d: Seq<char>)
    requires
        bare_doi(d),
    ensures
        trim_start_matches(doi_prefixes()[0] + d, doi_prefixes()[0]) == d,
{
    reveal_strlit("https://doi.org/");
    assert(!starts_with(d, doi_prefixes()[0]));
    lemma_strip_once(doi_prefixes()[0], d);
}

proof fn lemma_strip_case_1(d: Seq<char>)
    requires
        bare_doi(d),
    ensures
        trim_start_matches(doi_prefixes()[1] + d, doi_prefixes()[0]) == doi_prefixes()[1] + d,
        trim_start_matches(doi_prefixes()[1] + d, doi_prefixes()[1]) == d,
{
    reveal_strlit("https://doi.org/");
    reveal_strlit("http://doi.org/");
    let ps = doi_prefixes();
    let s = ps[1] + d;
    assert(!starts_with(d, ps[1]));
    lemma_not_prefix(s, ps[0], 4);
    lemma_strip_once(ps[1], d);
}

proof fn lemma_strip_case_2(d: Seq<char>)
    requires
        bare_doi(d),
    ensures
        trim_start_matches(doi_prefixes()[2] + d, doi_prefixes()[0]) == doi_prefixes()[2] + d,
        trim_start_matches(doi_prefixes()[2] + d, doi_prefixes()[1]) == doi_prefixes()[2] + d,
        trim_start_matches(doi_prefixes()[2] + d, doi_prefixes()[2]) == d,
{
    reveal_strlit("https://doi.org/");
    reveal_strlit("http://doi.org/");
    reveal_strlit("https://dx.doi.org/");
    let ps = doi_prefixes();
    let s = ps[2] + d;
    assert(!starts_with(d, ps[2]));
    lemma_not_prefix(s, ps[0], 9);
    lemma_not_prefix(s, ps[1], 4);
    lemma_strip_once(ps[2], d);
}

proof fn lemma_strip_case_3(d: Seq<char>)
    requires
        bare_doi(d),
    ensures
        trim_start_matches(doi_prefixes()[3] + d, doi_prefixes()[0]) == doi_prefixes()[3] + d,
        trim_start_matches(doi_prefixes()[3] + d, doi_prefixes()[1]) == doi_prefixes()[3] + d,
        trim_start_matches(doi_prefixes()[3] + d, doi_prefixes()[2]) == doi_prefixes()[3] + d,
        trim_start_matches(doi_prefixes()[3] + d, doi_prefixes()[3]) == d,
{
    reveal_strlit("https://doi.org/");
    reveal_strlit("http://doi.org/");
    reveal_strlit("https://dx.doi.org/");
    reveal_strlit("http://dx.doi.org/");
    let ps = doi_prefixes();
    let s = ps[3] + d;
    assert(!starts_with(d, ps[3]));
    lemma_not_prefix(s, ps[0], 4);
    lemma_not_prefix(s, ps[1], 8);
    lemma_not_prefix(s, ps[2], 4);
    lemma_strip_once(ps[3], d);
}

proof fn lemma_strip_case_4(d: Seq<char>)
    requires
        bare_doi(d),
    ensures
        trim_start_matches(doi_prefixes()[4] + d, doi_prefixes()[0]) == doi_prefixes()[4] + d,
        trim_start_matches(doi_prefixes()[4] + d, doi_prefixes()[1]) == doi_prefixes()[4] + d,
        trim_start_matches(doi_prefixes()[4] + d, doi_prefixes()[2]) == doi_prefixes()[4] + d,
        trim_start_matches(doi_prefixes()[4] + d, doi_prefixes()[3]) == doi_prefixes()[4] + d,
        trim_start_matches(doi_prefixes()[4] + d, doi_prefixes()[4]) == d,
{
    reveal_strlit("https://doi.org/");
    reveal_strlit("http://doi.org/");
    reveal_strlit("https://dx.doi.org/");
    reveal_strlit("http://dx.doi.org/");
    reveal_strlit("doi:");
    let ps = doi_prefixes();
    let s = ps[4] + d;
    assert(!starts_with(d, ps[4]));
    lemma_not_prefix(s, ps[0], 0);
    lemma_not_prefix(s, ps[1], 0);
    lemma_not_prefix(s, ps[2], 0);
    lemma_not_prefix(s, ps[3], 0);
    lemma_strip_once(ps[4], d);
}

/// Normalisation removes any one of the URL or `doi:` prefixes from a bare
/// DOI, e.g. `https://doi.org/10.1234/test` becomes `10.1234/test`.
pub proof fn lemma_normalise_strips_prefix(d: Seq<char>, i: int)
    requires
        bare_doi(d),
        0 <= i < 5,
    ensures
        doi_normalised(doi_prefixes()[i] + d) == d,
{
    let ps = doi_prefixes();
    let s = ps[i] + d;
    assert(ps[i].len() > 0) by {
        reveal_strlit("https://doi.org/");
        reveal_strlit("http://doi.org/");
        reveal_strlit("https://dx.doi.org/");
        reveal_strlit("http://dx.doi.org/");
        reveal_strlit("doi:");
    }
    assert(!is_white_space(s[0])) by {
        reveal_strlit("https://doi.org/");
        reveal_strlit("http://doi.org/");
        reveal_strlit("https://dx.doi.org/");
        reveal_strlit("http://dx.doi.org/");
        reveal_strlit("doi:");
        assert(s[0] == ps[i][0]);
    }
    assert(s.last() == d.last());
    lemma_trim_noop(s);
    if i == 0 {
        lemma_strip_case_0(d);
        lemma_later_steps_keep(d, 1);
    } else if i == 1 {
        lemma_strip_case_1(d);
        lemma_later_steps_keep(d, 2);
    } else if i == 2 {
        lemma_strip_case_2(d);
        lemma_later_steps_keep(d, 3);
    } else if i == 3 {
        lemma_strip_case_3(d);
        lemma_later_steps_keep(d, 4);
    } else {
        lemma_strip_case_4(d);
    }
}

/// All characters of `s` are whitespace.
pub open spec fn all_white_space(s: Seq<char>) -> bool {
    forall|i: int| 0 <= i < s.len() ==> is_white_space(#[trigger] s[i])
}

proof fn lemma_trim_start_padding(ws: Seq<char>, x: Seq<char>)
    requires
        all_white_space(ws),
        x.len() > 0,
        !is_white_space(x[0]),
    ensures
        trim_start_ws(ws + x) == x,
    decreases ws.len(),
{
    if ws.len() > 0 {
        assert((ws + x).drop_first() =~= ws.drop_first() + x);
        assert(is_white_space(ws[0]));
        lemma_trim_start_padding(ws.drop_first(), x);
    } else {
        assert(ws + x =~= x);
    }
}

proof fn lemma_trim_end_padding(x: Seq<char>, ws: Seq<char>)
    requires
        all_white_space(ws),
        x.len() > 0,
        !is_white_space(x.last()),
    ensures
        trim_end_ws(x + ws) == x,
    decreases ws.len(),
{
    if ws.len() > 0 {
        assert((x + ws).drop_last() =~= x + ws.drop_last());
        assert(is_white_space(ws.last()));
        lemma_trim_end_padding(x, ws.drop_last());
    } else {
        assert(x + ws =~= x);
    }
}

/// Trimming removes exactly the whitespace around a text that starts and
/// ends with other characters.
proof fn lemma_trim_padding(ws1: Seq<char>, x: Seq<char>, ws2: Seq<char>)
    requires
        all_white_space(ws1),
        all_white_space(ws2),
        x.len() > 0,
        !is_white_space(x[0]),
        !is_white_space(x.last()),
    ensures
        trim_ws(ws1 + x + ws2) == x,
{
    assert(ws1 + x + ws2 =~= ws1 + (x + ws2));
    assert((x + ws2)[0] == x[0]);
    lemma_trim_start_padding(ws1, x + ws2);
    lemma_trim_end_padding(x, ws2);
}

/// Normalisation returns a bare DOI from the DOI itself, or from the DOI
/// behind any one of the URL or `doi:` prefixes (`i < 5`; `i == 5` means no
/// prefix), with any whitespace before and after.
pub proof fn lemma_normalise_padded_doi(ws1: Seq<char>, ws2: Seq<char>, d: Seq<char>, i: int)
    requires
        bare_doi(d),
        0 <= i <= 5,
        all_white_space(ws1),
        all_white_space(ws2),
    ensures
        doi_normalised(
            ws1 + (if i < 5 {
                doi_prefixes()[i] + d
            } else {
                d
            }) + ws2,
        ) == d,
{
    let x = if i < 5 {
        doi_prefixes()[i] + d
    } else {
        d
    };
    if i < 5 {
        reveal_strlit("https://doi.org/");
        reveal_strlit("http://doi.org/");
        reveal_strlit("https://dx.doi.org/");
        reveal_strlit("http://dx.doi.org/");
        reveal_strlit("doi:");
        assert(x[0] == doi_prefixes()[i][0]);
        assert(x.last() == d.last());
        lemma_normalise_strips_prefix(d, i);
    } else {
        lemma_normalise_keeps_bare_doi(d);
    }
    lemma_trim_padding(ws1, x, ws2);
    lemma_trim_noop(x);
}

/// The short-title key of a title is the key of its whitespace-separated
/// words.
pub proof fn lemma_short_title_key_reads_words(title: Seq<char>, year: Option<i32>)
    ensures
        short_title_key(Some(title), year) == short_title_words_key(split_ws(title), year),
{
}

proof fn lemma_significant_words_concat(a: Seq<Seq<char>>, b: Seq<Seq<char>>)
    ensures
        significant_words(a + b) == significant_words(a) + significant_words(b),
    decreases b.len(),
{
    if b.len() == 0 {
        assert(a + b =~= a);
        assert(significant_words(a) + significant_words(b) =~= significant_words(a));
    } else {
        assert((a + b).drop_last() =~= a + b.drop_last());
        assert((a + b).last() == b.last());
        lemma_significant_words_concat(a, b.drop_last());
        if significant_word(b.last()) {
            assert(significant_words(a + b) =~= significant_words(a) + significant_words(b));
        }
    }
}

proof fn lemma_keep_all(s: Seq<char>)
    requires
        forall|i: int| 0 <= i < s.len() ==> 'a' <= #[trigger] s[i] && s[i] <= 'z',
    ensures
        keep_chars(s, |c: char| alphabetic(c)) == s,
    decreases s.len(),
{
    if s.len() > 0 {
        assert forall|i: int| 0 <= i < s.drop_last().len() implies 'a' <= #[trigger] s.drop_last()[i]
            && s.drop_last()[i] <= 'z' by {
            assert(s.drop_last()[i] == s[i]);
        }
        lemma_keep_all(s.drop_last());
        let c = s.last();
        assert('a' <= c && c <= 'z');
        assert(alphabetic(c));
        assert(s.drop_last().push(c) =~= s);
    }
}

/// A word of lowercase ASCII letters keeps all its letters and is its own
/// lowercase.
proof fn lemma_lowercase_word(s: Seq<char>)
    requires
        forall|i: int| 0 <= i < s.len() ==> 'a' <= #[trigger] s[i] && s[i] <= 'z',
    ensures
        lowercased(keep_chars(s, |c: char| alphabetic(c))) == s,
{
    lemma_keep_all(s);
    assert(all_ascii(s));
    assert(s.map_values(|c: char| ascii_lower(c)) =~= s);
}

/// Stop words are ignored by the short-title key: for any title words `u`
/// and `v`, any year, and `s` one of `a`, `an`, `the`, `of`, `in`, `on`,
/// `at`, `to`, `for`, `and`, `or`, `by`, `with`, `is`, `are`, `was`, `were`,
/// `from`, `as`, `into`, `that`, `this`, `its`, `be`, `has`, `have`, `had`,
/// the key of `u`, `s`, `v` is the key of `u`, `v`.
pub proof fn lemma_stop_words_are_ignored(
    u: Seq<Seq<char>>,
    s: Seq<char>,
    v: Seq<Seq<char>>,
    year: Option<i32>,
)
    requires
        s == "a"@ || s == "an"@ || s == "the"@ || s == "of"@ || s == "in"@ || s == "on"@ || s == "at"@ || s == "to"@ || s == "for"@ || s == "and"@ || s == "or"@ || s == "by"@ || s == "with"@ || s == "is"@ || s == "are"@ || s == "was"@ || s == "were"@ || s == "from"@ || s == "as"@ || s == "into"@ || s == "that"@ || s == "this"@ || s == "its"@ || s == "be"@ || s == "has"@ || s == "have"@ || s == "had"@,
    ensures
        short_title_words_key(u + seq![s] + v, year) == short_title_words_key(u + v, year),
{
    reveal_strlit("a");
    reveal_strlit("an");
    reveal_strlit("the");
    reveal_strlit("of");
    reveal_strlit("in");
    reveal_strlit("on");
    reveal_strlit("at");
    reveal_strlit("to");
    reveal_strlit("for");
    reveal_strlit("and");
    reveal_strlit("or");
    reveal_strlit("by");
    reveal_strlit("with");
    reveal_strlit("is");
    reveal_strlit("are");
    reveal_strlit("was");
    reveal_strlit("were");
    reveal_strlit("from");
    reveal_strlit("as");
    reveal_strlit("into");
    reveal_strlit("that");
    reveal_strlit("this");
    reveal_strlit("its");
    reveal_strlit("be");
    reveal_strlit("has");
    reveal_strlit("have");
    reveal_strlit("had");
    assert(forall|i: int| 0 <= i < s.len() ==> 'a' <= #[trigger] s[i] && s[i] <= 'z');
    lemma_lowercase_word(s);
    assert(!significant_word(s));
    let one = seq![s];
    assert(one.drop_last() =~= Seq::<Seq<char>>::empty());
    assert(one.last() == s);
    assert(significant_words(Seq::<Seq<char>>::empty()) =~= Seq::<Seq<char>>::empty());
    assert(significant_words(one) == significant_words(one.drop_last()));
    assert(significant_words(one) =~= Seq::<Seq<char>>::empty());
    lemma_significant_words_concat(u + one, v);
    lemma_significant_words_concat(u, one);
    lemma_significant_words_concat(u, v);
    assert(significant_words(u + one) =~= significant_words(u));
    assert(significant_words(u + seq![s] + v) =~= significant_words(u + v));
}

/// Each key style reads its own part of the work: author-year keys the
/// authors and year, short-title keys the title and year.
pub proof fn lemma_key_styles(w: WorkMeta)
    ensures
        key_by_style(w, KeyStyle::AuthorYear) == author_year_key(
            w.authors@.map_values(|a: String| a@),
            w.year,
        ),
        key_by_style(w, KeyStyle::ShortTitle) == short_title_key(opt_chars(w.title), w.year),
{
    assert(strings_view(w.authors@) =~= w.authors@.map_values(|a: String| a@));
}

/// A key ends with the year's decimal numeral, and a key whose main part is
/// empty is `Unknown` followed by the year.
pub proof fn lemma_key_year_suffix(main: Seq<char>, year: Option<i32>)
    ensures
        year is None ==> key_with_year(main, year) == (if main.len() == 0 {
            "Unknown"@
        } else {
            main
        }),
        year is Some ==> key_with_year(main, year) == (if main.len() == 0 {
            "Unknown"@
        } else {
            main
        }) + int_decimal(year.unwrap() as int),
{
    if year is None {
        assert(main + Seq::<char>::empty() =~= main);
        assert("Unknown"@ + Seq::<char>::empty() =~= "Unknown"@);
    }
}

/// Only the first two authors count for an author-year key: authors after
/// the second never change it.
pub proof fn lemma_author_key_reads_two_authors(authors: Seq<Seq<char>>, year: Option<i32>)
    requires
        authors.len() >= 2,
    ensures
        author_year_key(authors, year) == author_year_key(authors.take(2), year),
{
    assert(first_n(authors.take(2), 2) =~= authors.take(2));
    if authors.len() == 2 {
        assert(authors.take(2) =~= authors);
    }
    assert(first_n(authors, 2) =~= authors.take(2));
}

/// The family name of "Family, Given" or "Family" is the family name, when
/// it holds no comma and no surrounding whitespace.
pub proof fn lemma_family_name_of_author(f: Seq<char>, g: Seq<char>)
    requires
        f.len() > 0,
        !is_white_space(f[0]),
        !is_white_space(f.last()),
        forall|i: int| 0 <= i < f.len() ==> f[i] != ',',
    ensures
        family_name(f + ", "@ + g) == f,
        family_name(f) == f,
{
    reveal_strlit(", ");
    let a = f + ", "@ + g;
    assert(a[f.len() as int] == ',');
    lemma_before_comma(a, f.len() as int);
    assert(a.subrange(0, f.len() as int) =~= f);
    lemma_before_comma(f, f.len() as int);
    assert(f.subrange(0, f.len() as int) =~= f);
    assert(trim_start_ws(f) == f);
}

/// The author-year key of authors written "Family, Given" is the first two
/// family names, each with its first character uppercased, followed by the
/// year; a single author gives one name, and no authors give `Unknown`.
/// (std documents that uppercasing a character gives at least one
/// character.)
pub proof fn lemma_author_year_key_of_names(
    f1: Seq<char>,
    g1: Seq<char>,
    f2: Seq<char>,
    g2: Seq<char>,
    rest: Seq<Seq<char>>,
    year: i32,
)
    requires
        f1.len() > 0,
        f2.len() > 0,
        !is_white_space(f1[0]) && !is_white_space(f1.last()),
        !is_white_space(f2[0]) && !is_white_space(f2.last()),
        forall|i: int| 0 <= i < f1.len() ==> f1[i] != ',',
        forall|i: int| 0 <= i < f2.len() ==> f2[i] != ',',
        char_uppercase(f1[0]).len() > 0,
        char_uppercase(f2[0]).len() > 0,
    ensures
        author_year_key(seq![f1 + ", "@ + g1, f2 + ", "@ + g2] + rest, Some(year)) == (
        char_uppercase(f1[0]) + f1.drop_first()) + (char_uppercase(f2[0]) + f2.drop_first())
            + int_decimal(year as int),
        author_year_key(seq![f1 + ", "@ + g1], Some(year)) == (char_uppercase(f1[0])
            + f1.drop_first()) + int_decimal(year as int),
        author_year_key(Seq::<Seq<char>>::empty(), Some(year)) == "Unknown"@ + int_decimal(
            year as int,
        ),
{
    lemma_family_name_of_author(f1, g1);
    lemma_family_name_of_author(f2, g2);
    let a1 = f1 + ", "@ + g1;
    let a2 = f2 + ", "@ + g2;
    let c1 = capitalised(f1);
    let c2 = capitalised(f2);
    assert(c1.len() >= f1.len() - 1);
    let all = seq![a1, a2] + rest;
    assert(first_n(all, 2) =~= seq![a1, a2]);
    assert(seq![a1, a2].drop_last() =~= seq![a1]);
    assert(seq![a1].drop_last() =~= Seq::<Seq<char>>::empty());
    let one = seq![a1];
    assert(first_n(one, 2) =~= one);
    if c1.len() > 0 && c2.len() > 0 {
        let two = seq![a1, a2];
        assert(two.last() == a2);
        assert(one.last() == a1);
        assert(surname_parts(Seq::<Seq<char>>::empty()) =~= Seq::<Seq<char>>::empty());
        assert(surname_parts(one) == surname_parts(one.drop_last()).push(c1));
        assert(surname_parts(two) == surname_parts(two.drop_last()).push(c2));
        assert(surname_parts(seq![a1, a2]) =~= seq![c1, c2]);
        assert(concat_all(seq![c1, c2]) =~= c1 + c2) by {
            reveal_with_fuel(concat_all, 3);
        }
        assert(surname_parts(one) =~= seq![c1]);
        assert(concat_all(seq![c1]) =~= c1) by {
            reveal_with_fuel(concat_all, 2);
        }
    }
    assert(first_n(Seq::<Seq<char>>::empty(), 2) =~= Seq::<Seq<char>>::empty());
    assert(concat_all(Seq::<Seq<char>>::empty()) =~= Seq::<char>::empty());
}

proof fn lemma_first_n_prefix<A>(x: Seq<A>, z: Seq<A>, n: nat)
    requires
        x.len() >= n,
    ensures
        first_n(x + z, n) == first_n(x, n),
{
    assert((x + z).take(n as int) =~= x.take(n as int));
    assert(x.take(n as int) =~= x ==> true);
    if x.len() == n {
        assert(x.take(n as int) =~= x);
        if z.len() == 0 {
            assert(x + z =~= x);
        }
    }
}

/// Only the first four significant words count for a short-title key: once
/// a title has four, words added after them never change the key.
pub proof fn lemma_short_title_reads_four_words(
    words: Seq<Seq<char>>,
    more: Seq<Seq<char>>,
    year: Option<i32>,
)
    requires
        significant_words(words).len() >= 4,
    ensures
        short_title_words_key(words + more, year) == short_title_words_key(words, year),
{
    lemma_significant_words_concat(words, more);
    lemma_first_n_prefix(significant_words(words), significant_words(more), 4);
}

/// Normalising a DOI `10.…` written bare or behind `https://doi.org/`,
/// `http://doi.org/`, `https://dx.doi.org/`, `http://dx.doi.org/` or
/// `doi:`, with any whitespace before and after, gives the DOI itself.
pub proof fn lemma_normalise_doi_forms(ws1: Seq<char>, p: Seq<char>, d: Seq<char>, ws2: Seq<char>)
    requires
        p == ""@ || p == "https://doi.org/"@ || p == "http://doi.org/"@ || p
            == "https://dx.doi.org/"@ || p == "http://dx.doi.org/"@ || p == "doi:"@,
        d.len() >= 3,
        d[0] == '1' && d[1] == '0' && d[2] == '.',
        !is_white_space(d.last()),
        all_white_space(ws1),
        all_white_space(ws2),
    ensures
        doi_normalised(ws1 + p + d + ws2) == d,
{
    reveal_strlit("");
    reveal_strlit("https://doi.org/");
    reveal_strlit("http://doi.org/");
    reveal_strlit("https://dx.doi.org/");
    reveal_strlit("http://dx.doi.org/");
    reveal_strlit("doi:");
    let ps = doi_prefixes();
    assert forall|i: int| 0 <= i < 5 implies !starts_with(d, #[trigger] ps[i]) by {
        assert(ps[i][0] == 'h' || ps[i][0] == 'd');
        if starts_with(d, ps[i]) {
            assert(d.subrange(0, ps[i].len() as int)[0] == d[0]);
        }
    }
    assert(bare_doi(d));
    if p == ""@ {
        assert(ws1 + p + d + ws2 =~= ws1 + d + ws2);
        lemma_normalise_padded_doi(ws1, ws2, d, 5);
    } else {
        let i: int = if p == ps[0] {
            0
        } else if p == ps[1] {
            1
        } else if p == ps[2] {
            2
        } else if p == ps[3] {
            3
        } else {
            4
        };
        assert(p == ps[i]);
        assert(ws1 + p + d + ws2 =~= ws1 + (ps[i] + d) + ws2);
        lemma_normalise_padded_doi(ws1, ws2, d, i);
    }
}

// ─── Executable code ────────────────────────────────────────────────────────

proof fn lemma_before_comma(a: Seq<char>, i: int)
    requires
        0 <= i <= a.len(),
        forall|j: int| 0 <= j < i ==> a[j] != ',',
        i == a.len() || a[i] == ',',
    ensures
        before_comma(a) == a.subrange(0, i),
    decreases i,
{
    if i > 0 {
        lemma_before_comma(a.drop_first(), i - 1);
        assert(seq![a[0]] + a.drop_first().subrange(0, i - 1) =~= a.subrange(0, i));
    } else {
        assert(a.subrange(0, 0) =~= Seq::<char>::empty());
    }
}

/// The family name of an author stored as "Family, Given" or "Family".
fn family_name_of(a: &str) -> (r: Vec<char>)
    ensures
        r@ == family_name(a@),
{
    let v = chars_of(a);
    let mut i: usize = 0;
    while i < v.len() && v[i] != ','
        invariant
            i <= v.len(),
            forall|j: int| 0 <= j < i ==> v@[j] != ',',
        decreases v.len() - i,
    {
        i = i + 1;
    }
    proof {
        lemma_before_comma(v@, i as int);
    }
    let head = sub_chars(&v, 0, i);
    trim_chars(&head)
}

/// Appends the year's numeral, if there is a year.
fn push_year(out: &mut Vec<char>, year: Option<i32>)
    ensures
        final(out)@ == old(out)@ + year_part(year),
{
    match year {
        Some(y) => {
            let d = i32_decimal(y);
            append_chars(out, &d);
        },
        None => {
            assert(old(out)@ + year_part(year) =~= old(out)@);
        },
    }
}

/// A key from its main part and year.
fn finish_key(main: Vec<char>, year: Option<i32>) -> (r: String)
    ensures
        r@ == key_with_year(main@, year),
{
    let mut out: Vec<char> = Vec::new();
    if main.len() == 0 {
        append_str(&mut out, "Unknown");
    } else {
        append_chars(&mut out, &main);
    }
    push_year(&mut out, year);
    proof {
        if main@.len() == 0 {
            assert(out@ =~= "Unknown"@ + year_part(year));
        } else {
            assert(out@ =~= main@ + year_part(year));
        }
    }
    string_of(&out)
}

/// Generate a citation key according to the given style.
pub fn generate_citation_key_by_style(work: &WorkMeta, style: &KeyStyle) -> (r: String)
    ensures
        r@ == key_by_style(*work, *style),
        *style == KeyStyle::AuthorYear ==> r@ == author_year_key(
            strings_view(work.authors@),
            work.year,
        ),
        *style == KeyStyle::ShortTitle ==> r@ == short_title_key(opt_chars(work.title), work.year),
{
    match style {
        KeyStyle::AuthorYear => generate_citation_key(work.authors.as_slice(), work.year),
        KeyStyle::ShortTitle => generate_short_title_key(work),
    }
}

/// Generate an author-year citation key, e.g. `Smith2024` or `SmithJones2024`:
/// the capitalised family names of the first two authors (empty ones skipped)
/// followed by the year; `Unknown` stands in when no name remains.
///
/// Collision suffixes (`a`, `b`, …) must be resolved by the caller after checking
/// the existing keys in a bibliography.
pub fn generate_citation_key(authors: &[String], year: Option<i32>) -> (r: String)
    ensures
        r@ == author_year_key(strings_view(authors@), year),
{
    let ghost names = strings_view(authors@);
    let n: usize = if authors.len() < 2 {
        authors.len()
    } else {
        2
    };
    let ghost firsts = first_n(names, 2);
    assert(firsts =~= names.subrange(0, n as int));
    let mut main: Vec<char> = Vec::new();
    let mut i: usize = 0;
    while i < n
        invariant
            n <= authors@.len(),
            names == strings_view(authors@),
            firsts == names.subrange(0, n as int),
            i <= n,
            main@ == concat_all(surname_parts(names.subrange(0, i as int))),
        decreases n - i,
    {
        let ghost pre = names.subrange(0, i + 1);
        assert(pre.drop_last() =~= names.subrange(0, i as int));
        assert(pre.last() == authors@[i as int]@);
        let f = family_name_of(authors[i].as_str());
        assert(f@.len() == 0 ==> capitalised(f@).len() == 0);
        if f.len() > 0 {
            let c = capitalise_chars(&f);
            append_chars(&mut main, &c);
            proof {
                lemma_concat_push(surname_parts(names.subrange(0, i as int)), capitalised(f@));
            }
        }
        i = i + 1;
    }
    finish_key(main, year)
}

/// Whether `w` is one of the stop words of the short-title style.
pub fn is_stop_word(w: &Vec<char>) -> (r: bool)
    ensures
        r == stop_word(w@),
{
    chars_eq_str(w, "a") || chars_eq_str(w, "an") || chars_eq_str(w, "the") || chars_eq_str(w, "of")
        || chars_eq_str(w, "in") || chars_eq_str(w, "on") || chars_eq_str(w, "at") || chars_eq_str(
        w,
        "to",
    ) || chars_eq_str(w, "for") || chars_eq_str(w, "and") || chars_eq_str(w, "or")
        || chars_eq_str(w, "by") || chars_eq_str(w, "with") || chars_eq_str(w, "is")
        || chars_eq_str(w, "are") || chars_eq_str(w, "was") || chars_eq_str(w, "were")
        || chars_eq_str(w, "from") || chars_eq_str(w, "as") || chars_eq_str(w, "into")
        || chars_eq_str(w, "that") || chars_eq_str(w, "this") || chars_eq_str(w, "its")
        || chars_eq_str(w, "be") || chars_eq_str(w, "has") || chars_eq_str(w, "have")
        || chars_eq_str(w, "had")
}

/// Whether a title word counts for the short-title style.
fn is_significant_word(w: &Vec<char>) -> (r: bool)
    ensures
        r == significant_word(w@),
{
    let letters = keep_alphabetic(w);
    let s = string_of(&letters);
    let lower = lowercase_of(s.as_str());
    let lv = chars_of(lower.as_str());
    lv.len() > 0 && !is_stop_word(&lv)
}

/// Generate a short-title citation key, e.g. `MachineLearning2024`.
///
/// Strips common stop-words, takes the first four significant words,
/// capitalises each, and appends the year.
pub fn generate_short_title_key(work: &WorkMeta) -> (r: String)
    ensures
        r@ == short_title_key(opt_chars(work.title), work.year),
{
    let tv: Vec<char> = match &work.title {
        Some(t) => chars_of(t.as_str()),
        None => Vec::new(),
    };
    assert(tv@ == (match opt_chars(work.title) {
        Some(t) => t,
        None => seq![],
    }));
    let words = split_whitespace_chars(&tv);
    let ghost ws = split_ws(tv@);
    // collect the first four significant words
    let mut picked: Vec<Vec<char>> = Vec::new();
    let mut i: usize = 0;
    while i < words.len() && picked.len() < 4
        invariant
            ws == split_ws(tv@),
            words@.len() == ws.len(),
            forall|k: int| 0 <= k < words@.len() ==> #[trigger] words@[k]@ == ws[k],
            i <= words@.len(),
            picked@.len() <= 4,
            picked@.len() == significant_words(ws.subrange(0, i as int)).len(),
            forall|k: int|
                0 <= k < picked@.len() ==> #[trigger] picked@[k]@ == significant_words(
                    ws.subrange(0, i as int),
                )[k],
        decreases words@.len() - i,
    {
        let ghost pre = ws.subrange(0, i + 1);
        assert(pre.drop_last() =~= ws.subrange(0, i as int));
        assert(pre.last() == words@[i as int]@);
        if is_significant_word(&words[i]) {
            let w = sub_chars(&words[i], 0, words[i].len());
            picked.push(w);
        }
        i = i + 1;
    }
    let ghost sig = significant_words(ws);
    proof {
        lemma_significant_prefix(ws, i as int);
        assert(first_n(sig, 4) =~= significant_words(ws.subrange(0, i as int)));
    }
    let mut main: Vec<char> = Vec::new();
    let mut j: usize = 0;
    while j < picked.len()
        invariant
            j <= picked@.len(),
            main@ == concat_all(title_parts(first_n(sig, 4).subrange(0, j as int))),
            picked@.len() == first_n(sig, 4).len(),
            forall|k: int| 0 <= k < picked@.len() ==> #[trigger] picked@[k]@ == first_n(sig, 4)[k],
        decreases picked@.len() - j,
    {
        let ghost pre = first_n(sig, 4).subrange(0, j + 1);
        assert(pre.drop_last() =~= first_n(sig, 4).subrange(0, j as int));
        assert(pre.last() == picked@[j as int]@);
        let clean = keep_alphanumeric(&picked[j]);
        let c = capitalise_chars(&clean);
        if c.len() > 0 {
            append_chars(&mut main, &c);
            proof {
                lemma_concat_push(title_parts(first_n(sig, 4).subrange(0, j as int)), c@);
            }
        }
        j = j + 1;
    }
    assert(first_n(sig, 4).subrange(0, j as int) =~= first_n(sig, 4));
    finish_key(main, work.year)
}

/// The significant words of a prefix are a prefix of the significant words.
proof fn lemma_significant_prefix(ws: Seq<Seq<char>>, i: int)
    requires
        0 <= i <= ws.len(),
        significant_words(ws.subrange(0, i)).len() == 4 || i == ws.len(),
        significant_words(ws.subrange(0, i)).len() <= 4,
    ensures
        first_n(significant_words(ws), 4) == significant_words(ws.subrange(0, i)),
{
    lemma_significant_extend(ws, i, ws.len() as int);
    assert(ws.subrange(0, ws.len() as int) =~= ws);
    let a = significant_words(ws.subrange(0, i));
    let b = significant_words(ws);
    if i == ws.len() {
        assert(b == a);
    } else {
        assert(b.take(4) =~= a);
    }
}

proof fn lemma_significant_extend(ws: Seq<Seq<char>>, i: int, j: int)
    requires
        0 <= i <= j <= ws.len(),
    ensures
        significant_words(ws.subrange(0, i)).len() <= significant_words(ws.subrange(0, j)).len(),
        forall|k: int|
            0 <= k < significant_words(ws.subrange(0, i)).len() ==> significant_words(
                ws.subrange(0, j),
            )[k] == #[trigger] significant_words(ws.subrange(0, i))[k],
    decreases j - i,
{
    if i < j {
        lemma_significant_extend(ws, i, j - 1);
        assert(ws.subrange(0, j).drop_last() =~= ws.subrange(0, j - 1));
    }
}

/// Whether the characters `key` equal one of `keys`.
fn contains_key(keys: &[String], key: &Vec<char>) -> (r: bool)
    ensures
        r == strings_view(keys@).contains(key@),
{
    let mut i: usize = 0;
    while i < keys.len()
        invariant
            i <= keys@.len(),
            forall|j: int| 0 <= j < i ==> keys@[j]@ != key@,
        decreases keys@.len() - i,
    {
        if chars_eq_str(key, keys[i].as_str()) {
            assert(strings_view(keys@)[i as int] == key@);
            return true;
        }
        i = i + 1;
    }
    assert forall|j: int| 0 <= j < strings_view(keys@).len() implies strings_view(keys@)[j]
        != key@ by {
        assert(strings_view(keys@)[j] == keys@[j]@);
    }
    false
}

/// The letter `a` + `i`.
fn suffix_char(i: usize) -> (c: char)
    requires
        i < 26,
    ensures
        c == suffix_letter(i as int),
{
    ((i as u8) + 97u8) as char
}

/// The letters of suffix number `n`.
fn suffix_chars(n: usize) -> (r: Vec<char>)
    requires
        n >= 1,
    ensures
        r@ == suffix_of(n as int),
    decreases n,
{
    if n <= 26 {
        let mut r: Vec<char> = Vec::new();
        r.push(suffix_char(n - 1));
        assert(r@ =~= suffix_of(n as int));
        r
    } else {
        assert((n - 1) / 26 >= 1 && (n - 1) / 26 < n) by (nonlinear_arith)
            requires
                n > 26,
        ;
        let mut r = suffix_chars((n - 1) / 26);
        r.push(suffix_char((n - 1) % 26));
        r
    }
}

/// Candidate `k` of the conflict resolution for `base`.
fn candidate_key(base: &Vec<char>, k: usize) -> (r: Vec<char>)
    ensures
        r@ == conflict_candidate(base@, k as int),
{
    let mut r = sub_chars(base, 0, base.len());
    assert(r@ =~= base@);
    if k > 0 {
        let s = suffix_chars(k);
        append_chars(&mut r, &s);
    }
    r
}

/// Append a conflict suffix (`a`, `b`, …) to `base_key` until it is unique
/// among `existing_keys`: the first of `base_key`, `base_key` + `a` … `z`,
/// `base_key` + `aa` … `zz`, `base_key` + `aaa` … that is not taken.
pub fn resolve_key_conflict(base_key: &str, existing_keys: &[String]) -> (r: String)
    ensures
        r@ == resolved_key(base_key@, strings_view(existing_keys@)),
        !strings_view(existing_keys@).contains(r@),
        r@.len() >= base_key@.len(),
        r@.subrange(0, base_key@.len() as int) == base_key@,
{
    let base = chars_of(base_key);
    let ghost taken = strings_view(existing_keys@);
    proof {
        lemma_resolved_key_is_free(base@, taken);
        lemma_resolved_key_extends_base(base@, taken);
        lemma_some_candidate_free(base@, taken);
    }
    let mut k: usize = 0;
    loop
        invariant
            k <= existing_keys@.len(),
            taken.len() == existing_keys@.len(),
            base@ == base_key@,
            taken == strings_view(existing_keys@),
            resolved_key(base@, taken) == first_free_from(base@, taken, k as int),
            forall|j: int| 0 <= j < k ==> taken.contains(#[trigger] conflict_candidate(base@, j)),
            exists|f: int| 0 <= f <= taken.len() && !taken.contains(#[trigger] conflict_candidate(base@, f)),
        decreases existing_keys@.len() - k,
    {
        let cand = candidate_key(&base, k);
        if !contains_key(existing_keys, &cand) {
            return string_of(&cand);
        }
        if k == existing_keys.len() {
            proof {
                let f = choose|f: int| 0 <= f <= taken.len() && !taken.contains(#[trigger] conflict_candidate(base@, f));
                if f < k {
                    assert(taken.contains(conflict_candidate(base@, f)));
                }
            }
            assert(false);
        }
        k = k + 1;
    }
}

/// Normalise a raw DOI string: strip URL prefixes if present.
///
/// E.g. `https://doi.org/10.1234/test` → `10.1234/test`
pub fn normalise_doi(doi: &str) -> (r: String)
    ensures
        r@ == doi_normalised(doi@),
{
    let v = chars_of(doi);
    let s0 = trim_chars(&v);
    let s1 = trim_start_matches_chars(&s0, "https://doi.org/");
    let s2 = trim_start_matches_chars(&s1, "http://doi.org/");
    let s3 = trim_start_matches_chars(&s2, "https://dx.doi.org/");
    let s4 = trim_start_matches_chars(&s3, "http://dx.doi.org/");
    let s5 = trim_start_matches_chars(&s4, "doi:");
    string_of(&s5)
}

/// Capitalise the first character of a string, leaving the rest unchanged.
pub fn capitalise_first(s: String) -> (r: String)
    ensures
        r@ == capitalised(s@),
{
    let v = chars_of(s.as_str());
    let c = capitalise_chars(&v);
    string_of(&c)
}

} // verus!
