//! Runtime configuration: defaults, the priority of overrides, the config
//! file location, the default file's text and the first-run guidance box.
use colored::Colorize;
use vstd::prelude::*;

use crate::error::CrossrefError;
use crate::models::opt_chars;
use crate::text::{
    append_chars, append_str, bytes_of, chars_of, join_path, join_strings, join_with, path_join,
    utf8_of,
    push_repeated, repeat_char, string_of, nat_decimal, digit,
};

verus! {

/// Runtime configuration resolved from (in priority order):
/// 1. CLI flags / function arguments
/// 2. Environment variables (`CROSSREF_EMAIL`, `CROSSREF_PROXY`, …)
/// 3. Config file (`~/.config/crossref.toml` or `--config` path)
/// 4. Built-in defaults
#[derive(Debug, Clone)]
pub struct Config {
    /// Email for Crossref polite-pool access (required for well-behaved usage).
    pub email: Option<String>,
    /// EZproxy host, e.g. `doi-org.ezproxy.cityu.edu.hk`.
    pub proxy: Option<String>,
    /// Default number of rows returned by `crossref search`.
    pub default_rows: u32,
    /// Cache time-to-live in days.
    pub cache_ttl_days: u32,
    /// Override the default XDG cache directory.
    pub cache_dir: Option<String>,
}

impl Default for Config {
    fn default() -> (r: Self)
        ensures
            r.email is None,
            opt_chars(r.proxy) == Some("doi-org.ezproxy.cityu.edu.hk"@),
            r.default_rows == 10,
            r.cache_ttl_days == 30,
            r.cache_dir is None,
    {
        Self {
            email: None,
            // The default proxy is the City University of Hong Kong EZproxy.
            proxy: Some("doi-org.ezproxy.cityu.edu.hk".to_owned()),
            default_rows: 10,
            cache_ttl_days: 30,
            cache_dir: None,
        }
    }
}

// ─── Specifications ─────────────────────────────────────────────────────────

pub open spec fn is_ascii_digit(c: char) -> bool {
    '0' <= c && c <= '9'
}

/// The value of a string of decimal digits.
pub open spec fn digits_value(s: Seq<char>) -> nat
    decreases s.len(),
{
    if s.len() == 0 {
        0
    } else {
        digits_value(s.drop_last()) * 10 + ((s.last() as nat) - 48) as nat
    }
}

/// `s` without one leading `+`.
pub open spec fn unsigned_digits(s: Seq<char>) -> Seq<char> {
    if s.len() > 0 && s[0] == '+' {
        s.drop_first()
    } else {
        s
    }
}

pub open spec fn all_ascii_digits(d: Seq<char>) -> bool {
    forall|i: int| 0 <= i < d.len() ==> is_ascii_digit(#[trigger] d[i])
}

/// What `str::parse::<u32>` accepts: an optional `+`, then one or more ASCII
/// digits whose value fits in a `u32`.
pub open spec fn u32_parsed(s: Seq<char>) -> Option<u32> {
    let d = unsigned_digits(s);
    if d.len() > 0 && all_ascii_digits(d) && digits_value(d) <= u32::MAX {
        Some(digits_value(d) as u32)
    } else {
        None
    }
}

/// A string override applies when it is set and non-empty.
pub open spec fn nonempty_override(v: Option<Seq<char>>, current: Option<Seq<char>>) -> Option<
    Seq<char>,
> {
    match v {
        Some(x) => if x.len() > 0 {
            Some(x)
        } else {
            current
        },
        None => current,
    }
}

/// A numeric override applies when it is set and parses as a `u32`.
pub open spec fn number_override(v: Option<Seq<char>>, current: u32) -> u32 {
    match v {
        Some(x) => match u32_parsed(x) {
            Some(n) => n,
            None => current,
        },
        None => current,
    }
}

pub open spec fn opt_str_chars(o: Option<&str>) -> Option<Seq<char>> {
    match o {
        Some(s) => Some(s@),
        None => None,
    }
}

/// The email chosen among a CLI override, the environment value and the
/// current one, in that priority.
pub open spec fn chosen_email(
    cli: Option<Seq<char>>,
    env: Option<Seq<char>>,
    current: Option<Seq<char>>,
) -> Option<Seq<char>> {
    match cli {
        Some(e) => Some(e),
        None => nonempty_override(env, current),
    }
}

/// The inner width of the guidance box: every row is this wide between its
/// two edge characters.
pub open spec fn box_width() -> nat {
    62
}

/// `s` padded with spaces on the right to `width` characters
/// (`format!("{:<width$}")`).
pub open spec fn padded(s: Seq<char>, width: nat) -> Seq<char> {
    if s.len() >= width {
        s
    } else {
        s + repeat_char(' ', (width - s.len()) as nat)
    }
}

/// `s` centred in `width` columns by its byte length `blen`, the extra space
/// going to the right.
pub open spec fn centred(s: Seq<char>, blen: nat, width: nat) -> Seq<char> {
    if blen >= width {
        s
    } else {
        let total = (width - blen) as nat;
        let left = total / 2;
        repeat_char(' ', left) + s + repeat_char(' ', (total - left) as nat)
    }
}

/// A box row: the content between two vertical bars.
pub open spec fn boxed_row(content: Seq<char>) -> Seq<char> {
    seq!['║'] + content + seq!['║']
}

pub open spec fn top_border() -> Seq<char> {
    seq!['╔'] + repeat_char('═', box_width()) + seq!['╗']
}

pub open spec fn bottom_border() -> Seq<char> {
    seq!['╚'] + repeat_char('═', box_width()) + seq!['╝']
}

pub open spec fn separator_line() -> Seq<char> {
    seq!['╟'] + repeat_char('─', box_width()) + seq!['╢']
}

/// A text line of the box: one space of margin, then the text, padded to
/// the inner width.
pub open spec fn guidance_line(s: Seq<char>) -> Seq<char> {
    boxed_row(padded(seq![' '] + s, box_width()))
}

/// The rows of the first-run guidance box for the config file at `path`,
/// with the given top and bottom borders.
pub open spec fn guidance_rows(path: Seq<char>, top: Seq<char>, bottom: Seq<char>, title: Seq<
    char,
>) -> Seq<Seq<char>> {
    let blank = guidance_line(seq![]);
    seq![
        top,
        boxed_row(title),
        separator_line(),
        guidance_line("A default configuration file has been created for you at:"@),
        guidance_line("  "@ + path),
        blank,
        guidance_line("Please open it now and set your email address:"@),
        guidance_line("  email = \"your.real.email@example.com\""@),
        blank,
        guidance_line("Alternatively, set via environment variable (quick setup):"@),
        guidance_line("  • Bash / Zsh   : export CROSSREF_EMAIL=you@example.com"@),
        guidance_line("  • Fish         : set -gx CROSSREF_EMAIL you@example.com"@),
        guidance_line("  • Nushell      : $env.CROSSREF_EMAIL = \"you@example.com\""@),
        guidance_line("  • PowerShell   : $env:CROSSREF_EMAIL = \"you@example.com\""@),
        blank,
        guidance_line("After editing, re-run your command."@),
        bottom,
    ]
}

/// What `colored`'s `bright_cyan().to_string()` can give for `s`: `s` itself
/// when colouring is off, or `s` between the bright-cyan and reset escape
/// sequences.
pub open spec fn cyan_outcome(s: Seq<char>, r: Seq<char>) -> bool {
    r == s || r == "\u{1b}[96m"@ + s + "\u{1b}[0m"@
}

/// The text of the default config file, dated `date`.
pub open spec fn default_config_text_of(date: Seq<char>) -> Seq<char> {
    "# crossref-rs Default Configuration File\n# Auto-generated on "@ + date + "\n# 自动生成于 "@ + date
        + "\n\n# [REQUIRED] Email for Crossref API polite-pool access.\n# 请填写您的真实邮箱地址，以避免被 Crossref 限速。\n# Replace with your real email to avoid rate limiting.\nemail = \"your.name@example.com\"\n\n# EZproxy host (commonly used by users in Hong Kong / CityU).\n# 香港城市大学 EZproxy 地址（如不需要可留空或注释掉）。\nproxy = \"doi-org.ezproxy.cityu.edu.hk\"\n\n# Default number of search results returned per query.\n# 搜索时默认返回的结果数量。\ndefault_rows = 10\n\n# Cache expiration in days (0 to disable caching).\n# 缓存过期天数（设置为 0 可禁用缓存）。\ncache_ttl_days = 30\n\n# Optional: custom cache directory path.\n# 可选：自定义缓存目录路径。\n# cache_dir = \"/path/to/cache\"\n"@
}

/// A padded line is exactly as wide as the box when its text fits.
proof fn lemma_line_width(s: Seq<char>)
    requires
        s.len() + 1 <= box_width(),
    ensures
        guidance_line(s).len() == box_width() + 2,
{
}

/// Every row of the guidance box, with plain borders, is as wide as the
/// borders (64 characters) when the path fits on its row.
pub proof fn lemma_guidance_rows_aligned(path: Seq<char>)
    requires
        path.len() <= 59,
    ensures
        forall|i: int|
            0 <= i < guidance_rows(
                path,
                top_border(),
                bottom_border(),
                centred("crossref-rs First-Run Setup"@, 27, box_width()),
            ).len() ==> (#[trigger] guidance_rows(
                path,
                top_border(),
                bottom_border(),
                centred("crossref-rs First-Run Setup"@, 27, box_width()),
            )[i]).len() == box_width() + 2,
{
    reveal_strlit("crossref-rs First-Run Setup");
    reveal_strlit("A default configuration file has been created for you at:");
    reveal_strlit("  ");
    reveal_strlit("Please open it now and set your email address:");
    reveal_strlit("  email = \"your.real.email@example.com\"");
    reveal_strlit("Alternatively, set via environment variable (quick setup):");
    reveal_strlit("  • Bash / Zsh   : export CROSSREF_EMAIL=you@example.com");
    reveal_strlit("  • Fish         : set -gx CROSSREF_EMAIL you@example.com");
    reveal_strlit("  • Nushell      : $env.CROSSREF_EMAIL = \"you@example.com\"");
    reveal_strlit("  • PowerShell   : $env:CROSSREF_EMAIL = \"you@example.com\"");
    reveal_strlit("After editing, re-run your command.");
    lemma_line_width(seq![]);
    lemma_line_width("A default configuration file has been created for you at:"@);
    lemma_line_width("  "@ + path);
    lemma_line_width("Please open it now and set your email address:"@);
    lemma_line_width("  email = \"your.real.email@example.com\""@);
    lemma_line_width("Alternatively, set via environment variable (quick setup):"@);
    lemma_line_width("  • Bash / Zsh   : export CROSSREF_EMAIL=you@example.com"@);
    lemma_line_width("  • Fish         : set -gx CROSSREF_EMAIL you@example.com"@);
    lemma_line_width("  • Nushell      : $env.CROSSREF_EMAIL = \"you@example.com\""@);
    lemma_line_width("  • PowerShell   : $env:CROSSREF_EMAIL = \"you@example.com\""@);
    lemma_line_width("After editing, re-run your command."@);
    let title = centred("crossref-rs First-Run Setup"@, 27, box_width());
    assert(title.len() == box_width());
}

// ─── Trusted calls ──────────────────────────────────────────────────────────

/// Calls `dirs::config_dir()` and gives the directory as the bytes of the
/// path (`OsString::into_encoded_bytes`), so any path is carried unchanged.
/// Which directory it is depends on the platform and the environment, so
/// only this is stated: a directory given is never empty (an absolute
/// `XDG_CONFIG_HOME`, a name joined to a non-empty home directory, or the
/// platform's known folder).
#[verifier::external_body]
fn user_config_dir() -> (r: Option<Vec<u8>>)
    ensures
        r matches Some(d) ==> d@.len() > 0,
{
    dirs::config_dir().map(|p| p.into_os_string().into_encoded_bytes())
}

/// Calls `colored::Colorize::bright_cyan` on `s` and renders it: `s` itself
/// when `colored` decides not to colour (which depends on the environment),
/// or `s` wrapped in the bright-cyan and reset sequences. A text without an
/// escape character holds no reset sequence, so it is not rewritten.
#[verifier::external_body]
fn bright_cyan(s: &str) -> (r: String)
    requires
        forall|i: int| 0 <= i < s@.len() ==> s@[i] != '\u{1b}',
    ensures
        cyan_outcome(s@, r@),
{
    s.bright_cyan().to_string()
}

// ─── Executable code ────────────────────────────────────────────────────────

impl Config {
    /// Returns `true` when a polite email address is configured.
    pub open spec fn has_email_spec(&self) -> bool {
        match self.email {
            Some(e) => e@.len() > 0,
            None => false,
        }
    }

    /// Returns `true` when a polite email address is configured.
    pub fn has_email(&self) -> (r: bool)
        ensures
            r == self.has_email_spec(),
    {
        match &self.email {
            Some(e) => e.unicode_len() > 0,
            None => false,
        }
    }

    /// Applies the environment values and the CLI email override to a
    /// configuration read from the file (or the defaults): a set, non-empty
    /// `CROSSREF_EMAIL` / `CROSSREF_PROXY` replaces the email / proxy; a
    /// `CROSSREF_ROWS` / `CROSSREF_CACHE_TTL_DAYS` that parses as a `u32`
    /// replaces the row count / TTL; the CLI email wins over everything.
    pub fn with_overrides(
        self,
        env_email: Option<&str>,
        env_proxy: Option<&str>,
        env_rows: Option<&str>,
        env_ttl: Option<&str>,
        email_override: Option<&str>,
    ) -> (r: Config)
        ensures
            opt_chars(r.email) == chosen_email(
                opt_str_chars(email_override),
                opt_str_chars(env_email),
                opt_chars(self.email),
            ),
            opt_chars(r.proxy) == nonempty_override(opt_str_chars(env_proxy), opt_chars(self.proxy)),
            r.default_rows == number_override(opt_str_chars(env_rows), self.default_rows),
            r.cache_ttl_days == number_override(opt_str_chars(env_ttl), self.cache_ttl_days),
            opt_chars(r.cache_dir) == opt_chars(self.cache_dir),
    {
        let mut cfg = self;
        if let Some(email) = env_email {
            if email.unicode_len() > 0 {
                cfg.email = Some(email.to_owned());
            }
        }
        if let Some(proxy) = env_proxy {
            if proxy.unicode_len() > 0 {
                cfg.proxy = Some(proxy.to_owned());
            }
        }
        if let Some(rows) = env_rows {
            if let Some(n) = parse_u32(rows) {
                cfg.default_rows = n;
            }
        }
        if let Some(ttl) = env_ttl {
            if let Some(n) = parse_u32(ttl) {
                cfg.cache_ttl_days = n;
            }
        }
        // CLI flag is highest priority
        if let Some(email) = email_override {
            cfg.email = Some(email.to_owned());
        }
        cfg
    }

    /// Whether the first-run guidance is due after loading: no email is
    /// configured and none was given on the command line or in the
    /// environment.
    pub fn needs_first_run_guidance(&self, email_source_given: bool) -> (r: bool)
        ensures
            r == (!self.has_email_spec() && !email_source_given),
    {
        !self.has_email() && !email_source_given
    }
}

/// The first step of the command line's start: on a first run, with no
/// email given and no config file, the default file is created and the
/// guidance shown instead of running the command; otherwise the config is
/// loaded.
#[derive(Debug, PartialEq, Eq, Structural, Clone, Copy)]
pub enum StartupStep {
    CreateDefaultAndGuide,
    LoadConfig,
}

/// The start's first step given whether an email source was given and
/// whether the config file exists.
pub fn startup_step(email_source_given: bool, config_exists: bool) -> (r: StartupStep)
    ensures
        r == (if !email_source_given && !config_exists {
            StartupStep::CreateDefaultAndGuide
        } else {
            StartupStep::LoadConfig
        }),
{
    if !email_source_given && !config_exists {
        StartupStep::CreateDefaultAndGuide
    } else {
        StartupStep::LoadConfig
    }
}

/// Whether an email is available before loading the config: a CLI override,
/// or a non-empty `CROSSREF_EMAIL`.
pub fn email_source_given(email_override: Option<&str>, env_email: Option<&str>) -> (r: bool)
    ensures
        r == (email_override is Some || (match env_email {
            Some(e) => e@.len() > 0,
            None => false,
        })),
{
    let from_env = match env_email {
        Some(e) => e.unicode_len() > 0,
        None => false,
    };
    email_override.is_some() || from_env
}

proof fn lemma_digits_value_grows(d: Seq<char>, c: char)
    requires
        is_ascii_digit(c),
    ensures
        digits_value(d.push(c)) >= digits_value(d),
        digits_value(d.push(c)) == digits_value(d) * 10 + ((c as nat) - 48) as nat,
{
    assert(d.push(c).drop_last() =~= d);
}

proof fn lemma_decimal_digits(n: nat)
    ensures
        nat_decimal(n).len() > 0,
        all_ascii_digits(nat_decimal(n)),
        nat_decimal(n)[0] != '+',
        digits_value(nat_decimal(n)) == n,
    decreases n,
{
    if n >= 10 {
        lemma_decimal_digits(n / 10);
        let d = nat_decimal(n / 10);
        let c = digit(n % 10);
        assert(is_ascii_digit(c));
        lemma_digits_value_grows(d, c);
        assert((c as nat) == 48 + n % 10);
        assert(((c as nat) - 48) as nat == n % 10);
        assert((n / 10) * 10 + n % 10 == n) by (nonlinear_arith);
        assert(d.push(c)[0] == d[0]);
    } else {
        let s = nat_decimal(n);
        assert(s == seq![digit(n)]);
        assert(s.drop_last() =~= Seq::<char>::empty());
        assert(digits_value(Seq::<char>::empty()) == 0);
        assert(s.last() == digit(n));
        assert((digit(n) as nat) == 48 + n);
        assert(digits_value(s) == digits_value(s.drop_last()) * 10 + ((s.last() as nat) - 48) as nat);
    }
}

/// Reading back the decimal numeral of a number gives the number: what
/// `to_string` writes for a `u32`, with or without a leading `+`, parses to
/// it, so an environment override written as a number takes that value.
pub proof fn lemma_parse_reads_decimal(n: u32, current: u32)
    ensures
        u32_parsed(nat_decimal(n as nat)) == Some(n),
        u32_parsed(seq!['+'] + nat_decimal(n as nat)) == Some(n),
        number_override(Some(nat_decimal(n as nat)), current) == n,
{
    lemma_decimal_digits(n as nat);
    let d = nat_decimal(n as nat);
    assert((seq!['+'] + d).drop_first() =~= d);
}

/// The configuration's priority: an email given on the command line wins,
/// then a non-empty `CROSSREF_EMAIL`, then the file's; a non-empty
/// `CROSSREF_PROXY` replaces the file's proxy; a numeric override replaces
/// the file's value only when it reads as a `u32`.
pub proof fn lemma_override_priority(
    cli: Option<Seq<char>>,
    env: Option<Seq<char>>,
    current: Option<Seq<char>>,
    text: Option<Seq<char>>,
    number: u32,
)
    ensures
        cli is Some ==> chosen_email(cli, env, current) == cli,
        cli is None && env is Some && env.unwrap().len() > 0 ==> chosen_email(cli, env, current)
            == env,
        cli is None && (env is None || env.unwrap().len() == 0) ==> chosen_email(
            cli,
            env,
            current,
        ) == current,
        env is Some && env.unwrap().len() > 0 ==> nonempty_override(env, current) == env,
        env is None || env.unwrap().len() == 0 ==> nonempty_override(env, current) == current,
        text is None ==> number_override(text, number) == number,
        text is Some && u32_parsed(text.unwrap()) is None ==> number_override(text, number)
            == number,
        text is Some && u32_parsed(text.unwrap()) is Some ==> number_override(text, number)
            == u32_parsed(text.unwrap()).unwrap(),
{
}

/// What `str::parse::<u32>` returns, as an option.
pub fn parse_u32(s: &str) -> (r: Option<u32>)
    ensures
        r == u32_parsed(s@),
{
    let v = chars_of(s);
    let start: usize = if v.len() > 0 && v[0] == '+' {
        1
    } else {
        0
    };
    let ghost d = unsigned_digits(s@);
    assert(d =~= v@.subrange(start as int, v@.len() as int));
    if start == v.len() {
        return None;
    }
    let mut acc: u64 = 0;
    let mut over = false;
    let mut i: usize = start;
    while i < v.len()
        invariant
            start <= i <= v@.len(),
            v@ == s@,
            d == unsigned_digits(s@),
            d == v@.subrange(start as int, v@.len() as int),
            forall|j: int| start <= j < i ==> is_ascii_digit(#[trigger] v@[j]),
            !over ==> acc == digits_value(v@.subrange(start as int, i as int)),
            !over ==> acc <= u32::MAX,
            over ==> digits_value(v@.subrange(start as int, i as int)) > u32::MAX,
        decreases v@.len() - i,
    {
        let c = v[i];
        if !('0' <= c && c <= '9') {
            assert(!is_ascii_digit(d[i - start]));
            assert(!all_ascii_digits(d));
            return None;
        }
        let ghost pre = v@.subrange(start as int, i as int);
        assert(v@.subrange(start as int, i + 1) =~= pre.push(c));
        proof {
            lemma_digits_value_grows(pre, c);
        }
        if !over {
            let dv = (c as u32 - 48) as u64;
            acc = acc * 10 + dv;
            if acc > 0xffff_ffff {
                over = true;
            }
        }
        i = i + 1;
    }
    assert(v@.subrange(start as int, v@.len() as int) == d);
    assert(forall|j: int| 0 <= j < d.len() ==> d[j] == v@[start + j]);
    if over {
        None
    } else {
        Some(acc as u32)
    }
}

/// The config file path, as bytes: the override when given, otherwise
/// `crossref.toml` in the user's config directory (an error when there is
/// none).
pub fn config_file_path(override_path: Option<&str>, config_dir: Option<&[u8]>) -> (r: Result<
    Vec<u8>,
    CrossrefError,
>)
    ensures
        match override_path {
            Some(p) => r matches Ok(s) && s@ == utf8_of(p@),
            None => match config_dir {
                Some(d) => r matches Ok(s) && s@ == path_join(d@, utf8_of("crossref.toml"@)),
                None => r matches Err(e) && e is Config,
            },
        },
{
    if let Some(p) = override_path {
        return Ok(bytes_of(p));
    }
    match config_dir {
        Some(d) => Ok(join_path(d, "crossref.toml")),
        None => Err(CrossrefError::Config("cannot determine config directory".to_owned())),
    }
}

/// Returns the resolved path to the config file, as bytes: the override when
/// given, otherwise `crossref.toml` in the user's config directory.
pub fn resolve_config_path(override_path: Option<&str>) -> (r: Result<Vec<u8>, CrossrefError>)
    ensures
        match override_path {
            Some(p) => r matches Ok(s) && s@ == utf8_of(p@),
            None => match r {
                Ok(s) => exists|d: Seq<u8>|
                    d.len() > 0 && s@ == path_join(d, utf8_of("crossref.toml"@)),
                Err(e) => e is Config,
            },
        },
{
    if override_path.is_some() {
        return config_file_path(override_path, None);
    }
    let dir = user_config_dir();
    match &dir {
        Some(d) => {
            let r = config_file_path(None, Some(d.as_slice()));
            assert(r matches Ok(s) && s@ == path_join(d@, utf8_of("crossref.toml"@)));
            r
        },
        None => config_file_path(None, None),
    }
}

/// The text of the default config file written on first run, dated `date`.
pub fn default_config_text(date: &str) -> (r: String)
    ensures
        r@ == default_config_text_of(date@),
{
    let mut v: Vec<char> = Vec::new();
    append_str(&mut v, "# crossref-rs Default Configuration File\n# Auto-generated on ");
    append_str(&mut v, date);
    append_str(&mut v, "\n# 自动生成于 ");
    append_str(&mut v, date);
    append_str(&mut v, "\n\n# [REQUIRED] Email for Crossref API polite-pool access.\n# 请填写您的真实邮箱地址，以避免被 Crossref 限速。\n# Replace with your real email to avoid rate limiting.\nemail = \"your.name@example.com\"\n\n# EZproxy host (commonly used by users in Hong Kong / CityU).\n# 香港城市大学 EZproxy 地址（如不需要可留空或注释掉）。\nproxy = \"doi-org.ezproxy.cityu.edu.hk\"\n\n# Default number of search results returned per query.\n# 搜索时默认返回的结果数量。\ndefault_rows = 10\n\n# Cache expiration in days (0 to disable caching).\n# 缓存过期天数（设置为 0 可禁用缓存）。\ncache_ttl_days = 30\n\n# Optional: custom cache directory path.\n# 可选：自定义缓存目录路径。\n# cache_dir = \"/path/to/cache\"\n");
    string_of(&v)
}

/// `s` padded with spaces on the right to `width` characters.
fn pad(s: &str, width: usize) -> (r: String)
    ensures
        r@ == padded(s@, width as nat),
{
    let mut v = chars_of(s);
    if v.len() < width {
        let n = width - v.len();
        push_repeated(&mut v, ' ', n);
    }
    string_of(&v)
}

/// `s` centred in `width` columns by its byte length.
fn center_pad(s: &str, width: usize) -> (r: String)
    ensures
        r@ == centred(s@, s.len() as nat, width as nat),
{
    let len = s.len();
    if len >= width {
        return s.to_owned();
    }
    let total_pad = width - len;
    let left = total_pad / 2;
    let right = total_pad - left;
    let mut v: Vec<char> = Vec::new();
    push_repeated(&mut v, ' ', left);
    append_str(&mut v, s);
    push_repeated(&mut v, ' ', right);
    string_of(&v)
}

/// A box row: the content between two vertical bars.
fn row(content: &str) -> (r: String)
    ensures
        r@ == boxed_row(content@),
{
    let mut v: Vec<char> = Vec::new();
    v.push('║');
    append_str(&mut v, content);
    v.push('║');
    assert(v@ =~= boxed_row(content@));
    string_of(&v)
}

/// A horizontal border: `left`, `width` copies of `fill`, `right`.
fn border(left: char, fill: char, right: char, width: usize) -> (r: String)
    ensures
        r@ == seq![left] + repeat_char(fill, width as nat) + seq![right],
{
    let mut v: Vec<char> = Vec::new();
    v.push(left);
    push_repeated(&mut v, fill, width);
    v.push(right);
    assert(v@ =~= seq![left] + repeat_char(fill, width as nat) + seq![right]);
    string_of(&v)
}

/// A padded text line of the box.
fn line(s: &str) -> (r: String)
    ensures
        r@ == guidance_line(s@),
{
    let mut v: Vec<char> = Vec::new();
    v.push(' ');
    append_str(&mut v, s);
    assert(v@ =~= seq![' '] + s@);
    let text = string_of(&v);
    let p = pad(text.as_str(), 62);
    row(p.as_str())
}

/// The first-run guidance box for the config file at `path`, with the given
/// top and bottom borders, as lines joined by newlines.
pub fn guidance_box(path: &str, top: String, bottom: String) -> (r: String)
    ensures
        exists|title: Seq<char>|
            title == centred(
                "crossref-rs First-Run Setup"@,
                "crossref-rs First-Run Setup".len() as nat,
                62,
            ) && r@ == join_with(guidance_rows(path@, top@, bottom@, title), "\n"@),
{
    let title = center_pad("crossref-rs First-Run Setup", 62);
    let sep = border('╟', '─', '╢', 62);
    let blank = line("");
    proof {
        reveal_strlit("");
    }
    let mut indented: Vec<char> = Vec::new();
    append_str(&mut indented, "  ");
    append_str(&mut indented, path);
    assert(indented@ =~= "  "@ + path@);
    let indented = string_of(&indented);
    let mut rows: Vec<String> = Vec::new();
    rows.push(top);
    rows.push(row(title.as_str()));
    rows.push(sep);
    rows.push(line("A default configuration file has been created for you at:"));
    rows.push(line(indented.as_str()));
    rows.push(blank.clone());
    rows.push(line("Please open it now and set your email address:"));
    rows.push(line("  email = \"your.real.email@example.com\""));
    rows.push(blank.clone());
    rows.push(line("Alternatively, set via environment variable (quick setup):"));
    rows.push(line("  • Bash / Zsh   : export CROSSREF_EMAIL=you@example.com"));
    rows.push(line("  • Fish         : set -gx CROSSREF_EMAIL you@example.com"));
    rows.push(line("  • Nushell      : $env.CROSSREF_EMAIL = \"you@example.com\""));
    rows.push(line("  • PowerShell   : $env:CROSSREF_EMAIL = \"you@example.com\""));
    rows.push(blank.clone());
    rows.push(line("After editing, re-run your command."));
    rows.push(bottom);
    assert(rows@.map_values(|s: String| s@) =~= guidance_rows(path@, rows@[0]@, rows@[16]@, title@));
    join_strings(&rows, "\n")
}

/// The first-run guidance box for the config file at `path`, with its top
/// and bottom borders coloured bright cyan when `colored` colours output.
pub fn first_run_guidance_text(path: &str) -> (r: String)
    ensures
        exists|top: Seq<char>, bottom: Seq<char>, title: Seq<char>|
            cyan_outcome(top_border(), top) && cyan_outcome(bottom_border(), bottom) && title
                == centred(
                "crossref-rs First-Run Setup"@,
                "crossref-rs First-Run Setup".len() as nat,
                62,
            ) && r@ == join_with(guidance_rows(path@, top, bottom, title), "\n"@),
{
    let top_plain = border('╔', '═', '╗', 62);
    let bottom_plain = border('╚', '═', '╝', 62);
    assert(top_plain@ =~= top_border());
    assert(bottom_plain@ =~= bottom_border());
    let top = bright_cyan(top_plain.as_str());
    let bottom = bright_cyan(bottom_plain.as_str());
    guidance_box(path, top, bottom)
}

} // verus!
