//! The response cache: where it lives, how keys become file names, and when
//! an entry counts as expired. Reading and writing the files is done by the
//! application around this library.
use vstd::prelude::*;

use crate::config::Config;
use crate::error::CrossrefError;
use crate::text::{
    bytes_of, char_is_alphanumeric, chars_of, is_alphanumeric, join_path, path_join, string_of,
    utf8_of,
};

verus! {

/// Disk-backed JSON cache for API responses.
pub struct DiskCache {
    dir: Vec<u8>,
    ttl_days: u32,
}

/// A character allowed in a cache file name.
pub open spec fn safe_file_char(c: char) -> bool {
    char_is_alphanumeric(c) || c == '-' || c == '_' || c == '.'
}

/// The key with every character that is not allowed in a file name replaced
/// by `_`.
pub open spec fn sanitised_key(key: Seq<char>) -> Seq<char> {
    key.map_values(
        |c: char|
            if safe_file_char(c) {
                c
            } else {
                '_'
            },
    )
}

/// Calls `dirs::cache_dir()` and gives the directory as the bytes of the
/// path (`OsString::into_encoded_bytes`), so any path is carried unchanged.
/// Which directory it is depends on the platform and the environment, so
/// only this is stated: a directory given is never empty (an absolute
/// `XDG_CACHE_HOME`, a name joined to a non-empty home directory, or the
/// platform's known folder).
#[verifier::external_body]
fn user_cache_dir() -> (r: Option<Vec<u8>>)
    ensures
        r matches Some(d) ==> d@.len() > 0,
{
    dirs::cache_dir().map(|p| p.into_os_string().into_encoded_bytes())
}

impl DiskCache {
    /// The bytes of the cache directory's path.
    pub closed spec fn dir_bytes(&self) -> Seq<u8> {
        self.dir@
    }

    /// The time-to-live of entries, in days.
    pub closed spec fn ttl(&self) -> u32 {
        self.ttl_days
    }

    /// The cache for `config` with `cache_root` as the user's cache
    /// directory: the configured directory when there is one, otherwise
    /// `crossref-rs` inside `cache_root` (an error when there is none).
    pub fn from_config_in(config: &Config, cache_root: Option<&[u8]>) -> (r: Result<
        DiskCache,
        CrossrefError,
    >)
        ensures
            match config.cache_dir {
                Some(d) => r matches Ok(c) && c.dir_bytes() == utf8_of(d@) && c.ttl()
                    == config.cache_ttl_days,
                None => match cache_root {
                    Some(root) => r matches Ok(c) && c.dir_bytes() == path_join(
                        root@,
                        utf8_of("crossref-rs"@),
                    ) && c.ttl() == config.cache_ttl_days,
                    None => r matches Err(e) && e is Cache,
                },
            },
    {
        let dir = match &config.cache_dir {
            Some(custom) => bytes_of(custom.as_str()),
            None => match cache_root {
                Some(root) => join_path(root, "crossref-rs"),
                None => {
                    return Err(
                        CrossrefError::Cache("cannot determine cache directory".to_owned()),
                    );
                },
            },
        };
        Ok(DiskCache { dir, ttl_days: config.cache_ttl_days })
    }

    /// Construct a `DiskCache` from the resolved [`Config`]: the configured
    /// cache directory, or `crossref-rs` inside the user's cache directory.
    /// Creating the directory is left to the caller.
    pub fn from_config(config: &Config) -> (r: Result<DiskCache, CrossrefError>)
        ensures
            match config.cache_dir {
                Some(d) => r matches Ok(c) && c.dir_bytes() == utf8_of(d@) && c.ttl()
                    == config.cache_ttl_days,
                None => match r {
                    Ok(c) => c.ttl() == config.cache_ttl_days && exists|root: Seq<u8>|
                        root.len() > 0 && c.dir_bytes() == path_join(root, utf8_of("crossref-rs"@)),
                    Err(e) => e is Cache,
                },
            },
    {
        if config.cache_dir.is_some() {
            return Self::from_config_in(config, None);
        }
        let root = user_cache_dir();
        match &root {
            Some(d) => {
                let r = Self::from_config_in(config, Some(d.as_slice()));
                assert(r matches Ok(c) && c.dir_bytes() == path_join(d@, utf8_of("crossref-rs"@)));
                r
            },
            None => Self::from_config_in(config, None),
        }
    }

    /// The bytes of the cache directory's path.
    pub fn dir(&self) -> (r: &[u8])
        ensures
            r@ == self.dir_bytes(),
    {
        self.dir.as_slice()
    }

    /// The time-to-live of entries, in days.
    pub fn ttl_days(&self) -> (r: u32)
        ensures
            r == self.ttl(),
    {
        self.ttl_days
    }

    /// Whether the cache is in use: a TTL of 0 days disables it.
    pub fn is_enabled(&self) -> (r: bool)
        ensures
            r == (self.ttl() != 0),
    {
        self.ttl_days != 0
    }

    /// Whether an entry cached `age_days` whole days ago has expired.
    pub fn is_expired(&self, age_days: i64) -> (r: bool)
        ensures
            r == (age_days > self.ttl() as int),
    {
        age_days > self.ttl_days as i64
    }

    /// Sanitise a cache key into a safe filesystem filename inside the cache
    /// directory: `{dir}/{sanitised key}.json`, as the bytes of the path.
    pub fn key_to_path(&self, key: &str) -> (r: Vec<u8>)
        ensures
            r@ == path_join(self.dir_bytes(), utf8_of(sanitised_key(key@) + ".json"@)),
            forall|i: int|
                0 <= i < sanitised_key(key@).len() ==> safe_file_char(
                    #[trigger] sanitised_key(key@)[i],
                ),
    {
        let v = chars_of(key);
        let mut safe: Vec<char> = Vec::new();
        let mut i: usize = 0;
        while i < v.len()
            invariant
                v@ == key@,
                i <= v@.len(),
                safe@ == sanitised_key(v@.subrange(0, i as int)),
            decreases v@.len() - i,
        {
            let c = v[i];
            if is_alphanumeric(c) || c == '-' || c == '_' || c == '.' {
                safe.push(c);
            } else {
                safe.push('_');
            }
            assert(safe@ =~= sanitised_key(v@.subrange(0, i + 1)));
            i = i + 1;
        }
        assert(v@.subrange(0, v@.len() as int) =~= v@);
        crate::text::append_str(&mut safe, ".json");
        let name = string_of(&safe);
        join_path(self.dir.as_slice(), name.as_str())
    }
}

/// A cache key keeps its length as a file name; each character that is
/// alphanumeric or one of `-`, `_`, `.` stays, and every other character
/// becomes `_`.
pub proof fn lemma_sanitised_key_chars(key: Seq<char>)
    ensures
        sanitised_key(key).len() == key.len(),
        forall|i: int|
            0 <= i < key.len() ==> #[trigger] sanitised_key(key)[i] == (if char_is_alphanumeric(
                key[i],
            ) || key[i] == '-' || key[i] == '_' || key[i] == '.' {
                key[i]
            } else {
                '_'
            }),
{
}

} // verus!
