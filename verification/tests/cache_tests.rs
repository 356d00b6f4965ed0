use crossref_rs::cache::DiskCache;
use crossref_rs::config::Config;
use crossref_rs::CrossrefError;

fn make_cache(ttl_days: u32, dir: &str) -> DiskCache {
    let cfg = Config {
        cache_ttl_days: ttl_days,
        cache_dir: Some(dir.to_string()),
        ..Config::default()
    };
    DiskCache::from_config(&cfg).unwrap()
}

#[test]
fn test_cache_key_to_path_sanitises() {
    let cache = make_cache(30, "/tmp/cache");
    assert_eq!(
        cache.key_to_path("10.1234/some:doi?extra=chars"),
        b"/tmp/cache/10.1234_some_doi_extra_chars.json".to_vec()
    );
    assert_eq!(cache.key_to_path("key1"), b"/tmp/cache/key1.json".to_vec());
    assert_eq!(cache.key_to_path("a-b_c.d"), b"/tmp/cache/a-b_c.d.json".to_vec());
}

#[test]
fn test_cache_ttl_decisions() {
    let cache = make_cache(0, "/tmp/c");
    assert!(!cache.is_enabled(), "cache should be off when TTL is 0");
    let cache = make_cache(30, "/tmp/c/");
    assert!(cache.is_enabled());
    assert!(!cache.is_expired(30));
    assert!(cache.is_expired(31));
    assert!(!cache.is_expired(-1));
    assert_eq!(cache.ttl_days(), 30);
    assert_eq!(cache.dir(), b"/tmp/c/");
    assert_eq!(cache.key_to_path("k"), b"/tmp/c/k.json".to_vec());
}

#[test]
fn test_cache_dir_selection() {
    let cfg = Config { cache_dir: None, ..Config::default() };
    let c = DiskCache::from_config_in(&cfg, Some(&b"/home/u/.cache"[..])).unwrap();
    assert_eq!(c.dir(), b"/home/u/.cache/crossref-rs");
    assert!(matches!(DiskCache::from_config_in(&cfg, None), Err(CrossrefError::Cache(_))));
    let default = DiskCache::from_config(&cfg).unwrap();
    assert!(default.dir().ends_with(b"crossref-rs"));
}

#[test]
fn test_cache_dir_keeps_non_utf8_root() {
    let cfg = Config { cache_dir: None, ..Config::default() };
    let root: &[u8] = b"/home/\xff\xfe/.cache";
    let c = DiskCache::from_config_in(&cfg, Some(root)).unwrap();
    assert_eq!(c.dir(), b"/home/\xff\xfe/.cache/crossref-rs");
    assert_eq!(c.key_to_path("k"), b"/home/\xff\xfe/.cache/crossref-rs/k.json".to_vec());
}
