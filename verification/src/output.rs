//! The text the command line prints for works and searches.
use vstd::prelude::*;

use crate::models::{opt_chars, strings_view, WorkMeta};
use crate::text::{
    append_chars, append_str, chars_of, i32_decimal, int_decimal, join_strings, join_with,
    nat_decimal, push_decimal, string_of,
};

verus! {

/// A labelled line of the table view, or nothing when the value is absent.
pub open spec fn table_line(label: Seq<char>, value: Option<Seq<char>>) -> Seq<char> {
    match value {
        Some(v) => label + v + seq!['\n'],
        None => seq![],
    }
}

/// The table view of a work: its DOI, then its title, its authors joined by
/// `"; "` (when there are any), its year and its journal, each on a labelled
/// line where present, and an empty line to close.
pub open spec fn work_table_text(w: WorkMeta) -> Seq<char> {
    table_line("DOI:       "@, Some(w.doi@)) + table_line("Title:     "@, opt_chars(w.title))
        + table_line(
        "Authors:   "@,
        if w.authors@.len() > 0 {
            Some(join_with(strings_view(w.authors@), "; "@))
        } else {
            None
        },
    ) + table_line(
        "Year:      "@,
        match w.year {
            Some(y) => Some(int_decimal(y as int)),
            None => None,
        },
    ) + table_line("Journal:   "@, opt_chars(w.journal)) + seq!['\n']
}

/// The line above a search's table: how many works match and how many are
/// shown.
pub open spec fn search_summary_text(total: u64, shown: nat) -> Seq<char> {
    "Found "@ + nat_decimal(total as nat) + " results (showing "@ + nat_decimal(shown) + "):"@
}

fn push_line(out: &mut Vec<char>, label: &str, value: &Vec<char>)
    ensures
        final(out)@ == old(out)@ + table_line(label@, Some(value@)),
{
    append_str(out, label);
    append_chars(out, value);
    out.push('\n');
    assert(out@ =~= old(out)@ + table_line(label@, Some(value@)));
}

/// The table view of a work, as printed by the command line.
pub fn work_table(work: &WorkMeta) -> (r: String)
    ensures
        r@ == work_table_text(*work),
{
    let ghost w = *work;
    let mut out: Vec<char> = Vec::new();
    push_line(&mut out, "DOI:       ", &chars_of(work.doi.as_str()));
    let ghost s1 = out@;
    match &work.title {
        Some(t) => push_line(&mut out, "Title:     ", &chars_of(t.as_str())),
        None => {},
    }
    assert(out@ =~= s1 + table_line("Title:     "@, opt_chars(w.title)));
    let ghost s2 = out@;
    if work.authors.len() > 0 {
        let joined = join_strings(&work.authors, "; ");
        assert(work.authors@.map_values(|s: String| s@) =~= strings_view(work.authors@));
        push_line(&mut out, "Authors:   ", &chars_of(joined.as_str()));
    }
    let ghost authors_line = table_line(
        "Authors:   "@,
        if w.authors@.len() > 0 {
            Some(join_with(strings_view(w.authors@), "; "@))
        } else {
            None
        },
    );
    assert(out@ =~= s2 + authors_line);
    let ghost s3 = out@;
    match work.year {
        Some(y) => push_line(&mut out, "Year:      ", &i32_decimal(y)),
        None => {},
    }
    let ghost year_line = table_line(
        "Year:      "@,
        match w.year {
            Some(y) => Some(int_decimal(y as int)),
            None => None,
        },
    );
    assert(out@ =~= s3 + year_line);
    let ghost s4 = out@;
    match &work.journal {
        Some(j) => push_line(&mut out, "Journal:   ", &chars_of(j.as_str())),
        None => {},
    }
    assert(out@ =~= s4 + table_line("Journal:   "@, opt_chars(w.journal)));
    out.push('\n');
    assert(out@ =~= work_table_text(w));
    string_of(&out)
}

/// The line the command line prints above a search's table.
pub fn search_summary(total_results: u64, shown: usize) -> (r: String)
    ensures
        r@ == search_summary_text(total_results, shown as nat),
{
    let mut out: Vec<char> = Vec::new();
    append_str(&mut out, "Found ");
    push_decimal(total_results, &mut out);
    append_str(&mut out, " results (showing ");
    push_decimal(shown as u64, &mut out);
    append_str(&mut out, "):");
    assert(out@ =~= search_summary_text(total_results, shown as nat));
    string_of(&out)
}

/// The table view of a work is its lines in order, each present value on a
/// line of its own after a label padded to eleven columns: `DOI:`, then
/// `Title:`, `Authors:` (all authors joined by `; `), `Year:` and
/// `Journal:`, and an empty line to close.
pub proof fn lemma_work_table_lines(w: WorkMeta)
    ensures
        work_table_text(w) == "DOI:       "@ + w.doi@ + "\n"@ + (match w.title {
            Some(t) => "Title:     "@ + t@ + "\n"@,
            None => Seq::<char>::empty(),
        }) + (if w.authors@.len() > 0 {
            "Authors:   "@ + join_with(w.authors@.map_values(|a: String| a@), "; "@) + "\n"@
        } else {
            Seq::<char>::empty()
        }) + (match w.year {
            Some(y) => "Year:      "@ + int_decimal(y as int) + "\n"@,
            None => Seq::<char>::empty(),
        }) + (match w.journal {
            Some(j) => "Journal:   "@ + j@ + "\n"@,
            None => Seq::<char>::empty(),
        }) + "\n"@,
{
    reveal_strlit("\n");
    assert(strings_view(w.authors@) =~= w.authors@.map_values(|a: String| a@));
    assert(seq!['\n'] =~= "\n"@);
}

/// The summary above a search's table reads `Found {total} results
/// (showing {shown}):` with both numbers in decimal.
pub proof fn lemma_search_summary_text(total: u64, shown: nat)
    ensures
        search_summary_text(total, shown) == "Found "@ + nat_decimal(total as nat)
            + " results (showing "@ + nat_decimal(shown) + "):"@,
{
}

} // verus!
