//! Character and string primitives shared by the key generators, the BibTeX
//! record builder and the configuration helpers.
//!
//! Strings are modelled by their `Seq<char>` view. The Unicode classifications
//! that only the standard library can compute are named below and reached
//! through small trusted wrappers; everything else is written and proved here.
use vstd::prelude::*;

verus! {

// ─── Unicode classifications computed by std ───────────────────────────────

/// What `char::is_alphabetic` answers for `c` (Unicode `Alphabetic` property).
pub uninterp spec fn char_is_alphabetic(c: char) -> bool;

/// What `char::is_alphanumeric` answers for `c`.
pub uninterp spec fn char_is_alphanumeric(c: char) -> bool;

/// The characters yielded by `char::to_uppercase` for `c`.
pub uninterp spec fn char_uppercase(c: char) -> Seq<char>;

/// The string returned by `str::to_lowercase` for a string with characters `s`.
pub uninterp spec fn str_lowercase(s: Seq<char>) -> Seq<char>;

/// An ASCII letter, `A` to `Z` or `a` to `z`.
pub open spec fn is_ascii_letter(c: char) -> bool {
    ('a' <= c && c <= 'z') || ('A' <= c && c <= 'Z')
}

/// What `char::is_alphabetic` answers: among ASCII characters exactly the
/// letters, beyond ASCII the named Unicode property.
pub open spec fn alphabetic(c: char) -> bool {
    if (c as u32) < 128 {
        is_ascii_letter(c)
    } else {
        char_is_alphabetic(c)
    }
}

/// Calls `char::is_alphabetic`: among ASCII characters it holds exactly for
/// the letters (the only ASCII characters with the `Alphabetic` property);
/// beyond ASCII the result is the named classification.
#[verifier::external_body]
pub(crate) fn is_alphabetic(c: char) -> (r: bool)
    ensures
        r == (if (c as u32) < 128 {
            ('a' <= c && c <= 'z') || ('A' <= c && c <= 'Z')
        } else {
            char_is_alphabetic(c)
        }),
{
    c.is_alphabetic()
}

/// Calls `char::is_alphanumeric`; the result is the named classification.
#[verifier::external_body]
pub(crate) fn is_alphanumeric(c: char) -> (r: bool)
    ensures
        r == char_is_alphanumeric(c),
{
    c.is_alphanumeric()
}

/// Calls `char::to_uppercase` and collects the mapping; std documents that the
/// mapping has one or more characters.
#[verifier::external_body]
pub(crate) fn uppercase_of(c: char) -> (r: String)
    ensures
        r@ == char_uppercase(c),
        r@.len() >= 1,
{
    c.to_uppercase().collect()
}

/// A character with ASCII's `A` to `Z` turned into `a` to `z`.
pub open spec fn ascii_lower(c: char) -> char {
    if 'A' <= c && c <= 'Z' {
        ((c as u32) + 32) as char
    } else {
        c
    }
}

/// Every character of `s` is ASCII.
pub open spec fn all_ascii(s: Seq<char>) -> bool {
    forall|i: int| 0 <= i < s.len() ==> ((#[trigger] s[i]) as u32) < 128
}

/// What `str::to_lowercase` returns: for an ASCII text, the text with `A`
/// to `Z` lowered; otherwise the named Unicode mapping.
pub open spec fn lowercased(s: Seq<char>) -> Seq<char> {
    if all_ascii(s) {
        s.map_values(|c: char| ascii_lower(c))
    } else {
        str_lowercase(s)
    }
}

/// Calls `str::to_lowercase`: an ASCII text comes back with `A` to `Z`
/// lowered and every other character unchanged (std's Unicode mapping does
/// that on ASCII); beyond ASCII the result is the named mapping.
#[verifier::external_body]
pub(crate) fn lowercase_of(s: &str) -> (r: String)
    ensures
        r@ == (if forall|i: int| 0 <= i < s@.len() ==> ((#[trigger] s@[i]) as u32) < 128 {
            s@.map_values(|c: char| ascii_lower(c))
        } else {
            str_lowercase(s@)
        }),
{
    s.to_lowercase()
}

/// Calls `String::push`, which appends one character.
#[verifier::external_body]
pub(crate) fn push_char(s: &mut String, c: char)
    ensures
        final(s)@ == old(s)@.push(c),
{
    s.push(c);
}

// ─── Whitespace ─────────────────────────────────────────────────────────────

/// The Unicode `White_Space` property (PropList.txt), which is what
/// `char::is_whitespace`, `str::trim` and `str::split_whitespace` test.
pub open spec fn is_white_space(c: char) -> bool {
    let u = c as u32;
    ||| (0x9 <= u && u <= 0xD)
    ||| u == 0x20
    ||| u == 0x85
    ||| u == 0xA0
    ||| u == 0x1680
    ||| (0x2000 <= u && u <= 0x200A)
    ||| u == 0x2028
    ||| u == 0x2029
    ||| u == 0x202F
    ||| u == 0x205F
    ||| u == 0x3000
}

pub fn is_whitespace_char(c: char) -> (r: bool)
    ensures
        r == is_white_space(c),
{
    let u = c as u32;
    (0x9 <= u && u <= 0xD) || u == 0x20 || u == 0x85 || u == 0xA0 || u == 0x1680 || (0x2000 <= u
        && u <= 0x200A) || u == 0x2028 || u == 0x2029 || u == 0x202F || u == 0x205F || u == 0x3000
}

/// `s` without its leading whitespace.
pub open spec fn trim_start_ws(s: Seq<char>) -> Seq<char>
    decreases s.len(),
{
    if s.len() > 0 && is_white_space(s[0]) {
        trim_start_ws(s.drop_first())
    } else {
        s
    }
}

/// `s` without its trailing whitespace.
pub open spec fn trim_end_ws(s: Seq<char>) -> Seq<char>
    decreases s.len(),
{
    if s.len() > 0 && is_white_space(s.last()) {
        trim_end_ws(s.drop_last())
    } else {
        s
    }
}

/// What `str::trim` returns.
pub open spec fn trim_ws(s: Seq<char>) -> Seq<char> {
    trim_end_ws(trim_start_ws(s))
}

/// State after reading `s` from the left while splitting on whitespace:
/// the words completed so far and the word being read.
pub open spec fn split_state(s: Seq<char>) -> (Seq<Seq<char>>, Seq<char>)
    decreases s.len(),
{
    if s.len() == 0 {
        (seq![], seq![])
    } else {
        let (done, cur) = split_state(s.drop_last());
        let c = s.last();
        if is_white_space(c) {
            if cur.len() > 0 {
                (done.push(cur), seq![])
            } else {
                (done, cur)
            }
        } else {
            (done, cur.push(c))
        }
    }
}

/// What `str::split_whitespace` yields: the maximal runs of non-whitespace
/// characters, in order.
pub open spec fn split_ws(s: Seq<char>) -> Seq<Seq<char>> {
    let (done, cur) = split_state(s);
    if cur.len() > 0 {
        done.push(cur)
    } else {
        done
    }
}

// ─── Prefixes and concatenation ─────────────────────────────────────────────

pub open spec fn starts_with(s: Seq<char>, p: Seq<char>) -> bool {
    p.len() <= s.len() && s.subrange(0, p.len() as int) == p
}

/// What `str::trim_start_matches` returns for a string pattern `p`: every
/// leading repetition of `p` removed.
pub open spec fn trim_start_matches(s: Seq<char>, p: Seq<char>) -> Seq<char>
    decreases s.len(),
{
    if p.len() > 0 && starts_with(s, p) {
        trim_start_matches(s.skip(p.len() as int), p)
    } else {
        s
    }
}

/// The concatenation of all parts.
pub open spec fn concat_all(parts: Seq<Seq<char>>) -> Seq<char>
    decreases parts.len(),
{
    if parts.len() == 0 {
        seq![]
    } else {
        concat_all(parts.drop_last()) + parts.last()
    }
}

pub proof fn lemma_concat_push(parts: Seq<Seq<char>>, c: Seq<char>)
    ensures
        concat_all(parts.push(c)) == concat_all(parts) + c,
{
    assert(parts.push(c).drop_last() =~= parts);
}

/// The parts joined with `sep` between neighbours (`[T]::join`).
pub open spec fn join_with(parts: Seq<Seq<char>>, sep: Seq<char>) -> Seq<char>
    decreases parts.len(),
{
    if parts.len() == 0 {
        seq![]
    } else if parts.len() == 1 {
        parts[0]
    } else {
        join_with(parts.drop_last(), sep) + sep + parts.last()
    }
}

/// The characters of `s` that satisfy `keep`, in order.
pub open spec fn keep_chars(s: Seq<char>, keep: spec_fn(char) -> bool) -> Seq<char>
    decreases s.len(),
{
    if s.len() == 0 {
        seq![]
    } else if keep(s.last()) {
        keep_chars(s.drop_last(), keep).push(s.last())
    } else {
        keep_chars(s.drop_last(), keep)
    }
}

/// `s` with its first character replaced by its uppercase mapping.
pub open spec fn capitalised(s: Seq<char>) -> Seq<char> {
    if s.len() == 0 {
        seq![]
    } else {
        char_uppercase(s[0]) + s.drop_first()
    }
}

/// `n` copies of `c`.
pub open spec fn repeat_char(c: char, n: nat) -> Seq<char> {
    Seq::new(n, |i: int| c)
}

/// What `PathBuf::join(name)` gives on Unix for a path whose bytes are
/// `dir` and a name whose bytes are `name`: `name` itself when it is
/// absolute, otherwise `dir` and `name` with one `/` between them unless
/// `dir` is empty or already ends with `/`.
pub open spec fn path_join(dir: Seq<u8>, name: Seq<u8>) -> Seq<u8> {
    if name.len() > 0 && name[0] == 47u8 {
        name
    } else if dir.len() == 0 || dir.last() == 47u8 {
        dir + name
    } else {
        dir + seq![47u8] + name
    }
}

/// The UTF-8 bytes of a text.
pub open spec fn utf8_of(s: Seq<char>) -> Seq<u8> {
    vstd::utf8::encode_utf8(s)
}

// ─── Decimal numerals ───────────────────────────────────────────────────────

pub open spec fn digit(d: nat) -> char {
    (48 + d) as char
}

/// The decimal numeral of `n`, without leading zeros.
pub open spec fn nat_decimal(n: nat) -> Seq<char>
    decreases n,
{
    if n < 10 {
        seq![digit(n)]
    } else {
        nat_decimal(n / 10).push(digit(n % 10))
    }
}

/// What `to_string` gives for an integer: a `-` sign for negatives, then the
/// decimal numeral of the magnitude.
pub open spec fn int_decimal(i: int) -> Seq<char> {
    if i < 0 {
        seq!['-'] + nat_decimal((-i) as nat)
    } else {
        nat_decimal(i as nat)
    }
}

// ─── Executable helpers ─────────────────────────────────────────────────────

/// The characters of `s`.
pub fn chars_of(s: &str) -> (v: Vec<char>)
    ensures
        v@ == s@,
{
    let n = s.unicode_len();
    let mut v: Vec<char> = Vec::new();
    let mut i: usize = 0;
    while i < n
        invariant
            n == s@.len(),
            i <= n,
            v@ == s@.subrange(0, i as int),
        decreases n - i,
    {
        v.push(s.get_char(i));
        i = i + 1;
    }
    assert(v@ =~= s@);
    v
}

/// A `String` holding the characters `v`.
pub fn string_of(v: &Vec<char>) -> (s: String)
    ensures
        s@ == v@,
{
    let mut s = String::new();
    let mut i: usize = 0;
    while i < v.len()
        invariant
            i <= v.len(),
            s@ == v@.subrange(0, i as int),
        decreases v.len() - i,
    {
        push_char(&mut s, v[i]);
        assert(s@ =~= v@.subrange(0, i + 1));
        i = i + 1;
    }
    assert(v@.subrange(0, v.len() as int) =~= v@);
    s
}

/// Appends all of `w` to `v`.
pub fn append_chars(v: &mut Vec<char>, w: &Vec<char>)
    ensures
        final(v)@ == old(v)@ + w@,
{
    let mut i: usize = 0;
    while i < w.len()
        invariant
            i <= w.len(),
            v@ == old(v)@ + w@.subrange(0, i as int),
        decreases w.len() - i,
    {
        v.push(w[i]);
        assert(v@ =~= old(v)@ + w@.subrange(0, i + 1));
        i = i + 1;
    }
    assert(w@.subrange(0, w.len() as int) =~= w@);
}

/// Appends the characters of `s` to `v`.
pub fn append_str(v: &mut Vec<char>, s: &str)
    ensures
        final(v)@ == old(v)@ + s@,
{
    let w = chars_of(s);
    append_chars(v, &w);
}

/// The characters `v[lo..hi]`.
pub fn sub_chars(v: &Vec<char>, lo: usize, hi: usize) -> (r: Vec<char>)
    requires
        lo <= hi <= v.len(),
    ensures
        r@ == v@.subrange(lo as int, hi as int),
{
    let mut r: Vec<char> = Vec::new();
    let mut i: usize = lo;
    while i < hi
        invariant
            lo <= i <= hi <= v.len(),
            r@ == v@.subrange(lo as int, i as int),
        decreases hi - i,
    {
        r.push(v[i]);
        assert(r@ =~= v@.subrange(lo as int, i + 1));
        i = i + 1;
    }
    r
}

/// Whether `a` and `b` hold the same characters.
pub fn str_eq(a: &str, b: &str) -> (r: bool)
    ensures
        r == (a@ == b@),
{
    let n = a.unicode_len();
    let m = b.unicode_len();
    if n != m {
        return false;
    }
    let mut i: usize = 0;
    while i < n
        invariant
            n == a@.len(),
            m == b@.len(),
            n == m,
            i <= n,
            forall|j: int| 0 <= j < i ==> a@[j] == b@[j],
        decreases n - i,
    {
        if a.get_char(i) != b.get_char(i) {
            return false;
        }
        i = i + 1;
    }
    assert(a@ =~= b@);
    true
}

/// Whether the characters `v` spell `s`.
pub fn chars_eq_str(v: &Vec<char>, s: &str) -> (r: bool)
    ensures
        r == (v@ == s@),
{
    let n = s.unicode_len();
    if v.len() != n {
        return false;
    }
    let mut i: usize = 0;
    while i < n
        invariant
            n == s@.len(),
            v@.len() == n,
            i <= n,
            forall|j: int| 0 <= j < i ==> v@[j] == s@[j],
        decreases n - i,
    {
        if v[i] != s.get_char(i) {
            return false;
        }
        i = i + 1;
    }
    assert(v@ =~= s@);
    true
}

/// Whether `v[at..]` begins with the characters `p`.
pub fn starts_with_at(v: &Vec<char>, at: usize, p: &Vec<char>) -> (r: bool)
    requires
        at <= v.len(),
    ensures
        r == starts_with(v@.skip(at as int), p@),
{
    if p.len() > v.len() - at {
        return false;
    }
    let mut i: usize = 0;
    while i < p.len()
        invariant
            at + p.len() <= v.len(),
            i <= p.len(),
            forall|j: int| 0 <= j < i ==> v@[at + j] == p@[j],
        decreases p.len() - i,
    {
        if v[at + i] != p[i] {
            assert(v@.skip(at as int).subrange(0, p.len() as int)[i as int] != p@[i as int]);
            return false;
        }
        i = i + 1;
    }
    assert(v@.skip(at as int).subrange(0, p.len() as int) =~= p@);
    true
}

/// What `str::trim` returns.
pub fn trim_chars(v: &Vec<char>) -> (r: Vec<char>)
    ensures
        r@ == trim_ws(v@),
{
    let n = v.len();
    let mut lo: usize = 0;
    assert(v@.skip(0) =~= v@);
    while lo < n && is_whitespace_char(v[lo])
        invariant
            n == v.len(),
            lo <= n,
            trim_start_ws(v@) == trim_start_ws(v@.skip(lo as int)),
        decreases n - lo,
    {
        assert(v@.skip(lo as int).drop_first() =~= v@.skip(lo + 1));
        lo = lo + 1;
    }
    assert(trim_start_ws(v@) == v@.subrange(lo as int, n as int)) by {
        assert(v@.skip(lo as int) =~= v@.subrange(lo as int, n as int));
    }
    let mut hi: usize = n;
    while hi > lo && is_whitespace_char(v[hi - 1])
        invariant
            n == v.len(),
            lo <= hi <= n,
            trim_ws(v@) == trim_end_ws(v@.subrange(lo as int, hi as int)),
        decreases hi,
    {
        assert(v@.subrange(lo as int, hi as int).drop_last() =~= v@.subrange(
            lo as int,
            hi - 1,
        ));
        hi = hi - 1;
    }
    sub_chars(v, lo, hi)
}

/// What `str::trim_start_matches(p)` returns for a non-empty string pattern.
pub fn trim_start_matches_chars(v: &Vec<char>, p: &str) -> (r: Vec<char>)
    ensures
        r@ == trim_start_matches(v@, p@),
{
    let pv = chars_of(p);
    if pv.len() == 0 {
        return sub_chars(v, 0, v.len());
    }
    let n = v.len();
    let mut at: usize = 0;
    assert(v@.skip(0) =~= v@);
    while at < n && starts_with_at(v, at, &pv)
        invariant
            n == v.len(),
            pv@ == p@,
            pv@.len() > 0,
            at <= n,
            trim_start_matches(v@, p@) == trim_start_matches(v@.skip(at as int), p@),
        decreases n - at,
    {
        assert(v@.skip(at as int).skip(pv@.len() as int) =~= v@.skip(at + pv@.len()));
        at = at + pv.len();
    }
    if at == n {
        assert(v@.skip(at as int).len() == 0);
        assert(!starts_with(v@.skip(at as int), p@));
    }
    assert(v@.skip(at as int) =~= v@.subrange(at as int, n as int));
    sub_chars(v, at, n)
}

/// The characters of `v` that satisfy `char::is_alphabetic`, in order.
pub fn keep_alphabetic(v: &Vec<char>) -> (r: Vec<char>)
    ensures
        r@ == keep_chars(v@, |c: char| alphabetic(c)),
{
    let mut r: Vec<char> = Vec::new();
    let mut i: usize = 0;
    while i < v.len()
        invariant
            i <= v.len(),
            r@ == keep_chars(v@.subrange(0, i as int), |c: char| alphabetic(c)),
        decreases v.len() - i,
    {
        assert(v@.subrange(0, i + 1).drop_last() =~= v@.subrange(0, i as int));
        if is_alphabetic(v[i]) {
            r.push(v[i]);
        }
        i = i + 1;
    }
    assert(v@.subrange(0, v.len() as int) =~= v@);
    r
}

/// The characters of `v` that satisfy `char::is_alphanumeric`, in order.
pub fn keep_alphanumeric(v: &Vec<char>) -> (r: Vec<char>)
    ensures
        r@ == keep_chars(v@, |c: char| char_is_alphanumeric(c)),
{
    let mut r: Vec<char> = Vec::new();
    let mut i: usize = 0;
    while i < v.len()
        invariant
            i <= v.len(),
            r@ == keep_chars(v@.subrange(0, i as int), |c: char| char_is_alphanumeric(c)),
        decreases v.len() - i,
    {
        assert(v@.subrange(0, i + 1).drop_last() =~= v@.subrange(0, i as int));
        if is_alphanumeric(v[i]) {
            r.push(v[i]);
        }
        i = i + 1;
    }
    assert(v@.subrange(0, v.len() as int) =~= v@);
    r
}

/// What `str::split_whitespace` yields, collected.
pub fn split_whitespace_chars(v: &Vec<char>) -> (r: Vec<Vec<char>>)
    ensures
        r@.len() == split_ws(v@).len(),
        forall|i: int| 0 <= i < r@.len() ==> #[trigger] r@[i]@ == split_ws(v@)[i],
{
    let mut done: Vec<Vec<char>> = Vec::new();
    let mut cur: Vec<char> = Vec::new();
    let mut i: usize = 0;
    while i < v.len()
        invariant
            i <= v.len(),
            done@.len() == split_state(v@.subrange(0, i as int)).0.len(),
            forall|k: int|
                0 <= k < done@.len() ==> #[trigger] done@[k]@ == split_state(
                    v@.subrange(0, i as int),
                ).0[k],
            cur@ == split_state(v@.subrange(0, i as int)).1,
        decreases v.len() - i,
    {
        assert(v@.subrange(0, i + 1).drop_last() =~= v@.subrange(0, i as int));
        let c = v[i];
        if is_whitespace_char(c) {
            if cur.len() > 0 {
                let w = cur;
                done.push(w);
                cur = Vec::new();
            }
        } else {
            cur.push(c);
        }
        i = i + 1;
    }
    assert(v@.subrange(0, v.len() as int) =~= v@);
    if cur.len() > 0 {
        done.push(cur);
    }
    done
}

/// Appends the decimal numeral of `n` to `out`.
pub fn push_decimal(n: u64, out: &mut Vec<char>)
    ensures
        final(out)@ == old(out)@ + nat_decimal(n as nat),
    decreases n,
{
    if n >= 10 {
        push_decimal(n / 10, out);
    }
    let d = n % 10;
    let c = ((d as u8) + 48u8) as char;
    out.push(c);
    assert(c == digit(d as nat));
}

/// What `i32::to_string` returns.
pub fn i32_decimal(y: i32) -> (r: Vec<char>)
    ensures
        r@ == int_decimal(y as int),
{
    let mut out: Vec<char> = Vec::new();
    if y < 0 {
        out.push('-');
        let m: u64 = (0i64 - (y as i64)) as u64;
        push_decimal(m, &mut out);
        assert(out@ =~= seq!['-'] + nat_decimal((-(y as int)) as nat));
    } else {
        push_decimal(y as u64, &mut out);
        assert(out@ =~= nat_decimal(y as nat));
    }
    out
}

/// Appends `n` copies of `c` to `v`.
pub fn push_repeated(v: &mut Vec<char>, c: char, n: usize)
    ensures
        final(v)@ == old(v)@ + repeat_char(c, n as nat),
{
    let mut i: usize = 0;
    while i < n
        invariant
            i <= n,
            v@ == old(v)@ + repeat_char(c, i as nat),
        decreases n - i,
    {
        v.push(c);
        assert(v@ =~= old(v)@ + repeat_char(c, (i + 1) as nat));
        i = i + 1;
    }
}

/// Appends the bytes `w` to `v`.
pub fn append_bytes(v: &mut Vec<u8>, w: &[u8])
    ensures
        final(v)@ == old(v)@ + w@,
{
    let mut i: usize = 0;
    while i < w.len()
        invariant
            i <= w@.len(),
            v@ == old(v)@ + w@.subrange(0, i as int),
        decreases w@.len() - i,
    {
        v.push(w[i]);
        assert(v@ =~= old(v)@ + w@.subrange(0, i + 1));
        i = i + 1;
    }
    assert(w@.subrange(0, w@.len() as int) =~= w@);
}

/// The UTF-8 bytes of `s`.
pub fn bytes_of(s: &str) -> (r: Vec<u8>)
    ensures
        r@ == utf8_of(s@),
{
    let mut r: Vec<u8> = Vec::new();
    append_bytes(&mut r, s.as_bytes());
    assert(r@ =~= utf8_of(s@));
    r
}

/// What `Path::new(dir).join(name)` gives, as the bytes of the path.
pub fn join_path(dir: &[u8], name: &str) -> (r: Vec<u8>)
    ensures
        r@ == path_join(dir@, utf8_of(name@)),
{
    let nm = bytes_of(name);
    if nm.len() > 0 && nm[0] == 47u8 {
        return nm;
    }
    let mut out: Vec<u8> = Vec::new();
    append_bytes(&mut out, dir);
    assert(out@ =~= dir@);
    if dir.len() > 0 && dir[dir.len() - 1] != 47u8 {
        out.push(47u8);
    }
    append_bytes(&mut out, nm.as_slice());
    out
}

/// The strings joined with `sep` between neighbours.
pub fn join_strings(parts: &Vec<String>, sep: &str) -> (r: String)
    ensures
        r@ == join_with(parts@.map_values(|s: String| s@), sep@),
{
    let ghost names = parts@.map_values(|s: String| s@);
    let mut out = String::new();
    let mut i: usize = 0;
    while i < parts.len()
        invariant
            names == parts@.map_values(|s: String| s@),
            i <= parts@.len(),
            out@ == join_with(names.subrange(0, i as int), sep@),
        decreases parts@.len() - i,
    {
        let ghost pre = names.subrange(0, i + 1);
        assert(pre.drop_last() =~= names.subrange(0, i as int));
        assert(pre.last() == parts@[i as int]@);
        if i > 0 {
            out.append(sep);
        }
        out.append(parts[i].as_str());
        proof {
            if i == 0 {
                assert(out@ =~= pre[0]);
            }
        }
        i = i + 1;
    }
    assert(names.subrange(0, parts@.len() as int) =~= names);
    out
}

/// `s` with its first character replaced by its uppercase mapping.
pub fn capitalise_chars(v: &Vec<char>) -> (r: Vec<char>)
    ensures
        r@ == capitalised(v@),
        r@.len() >= v@.len(),
{
    if v.len() == 0 {
        return Vec::new();
    }
    let up = uppercase_of(v[0]);
    let mut r = chars_of(up.as_str());
    let rest = sub_chars(v, 1, v.len());
    append_chars(&mut r, &rest);
    assert(v@.drop_first() =~= v@.subrange(1, v@.len() as int));
    r
}

} // verus!
