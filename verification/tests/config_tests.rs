use crossref_rs::config::{
    config_file_path, default_config_text, email_source_given, first_run_guidance_text,
    guidance_box, parse_u32, startup_step, StartupStep, resolve_config_path, Config,
};
use crossref_rs::CrossrefError;

#[test]
fn test_resolve_config_path_uses_default() {
    let path = resolve_config_path(None).unwrap();
    assert!(
        path.ends_with(b"crossref.toml"),
        "default path should end with crossref.toml"
    );
}

#[test]
fn test_resolve_config_path_with_override() {
    let path = resolve_config_path(Some("/tmp/my_config.toml")).unwrap();
    assert_eq!(std::str::from_utf8(&path).unwrap(), "/tmp/my_config.toml");
}

#[test]
fn test_has_email_true() {
    let cfg = Config {
        email: Some("test@example.com".to_string()),
        ..Config::default()
    };
    assert!(cfg.has_email());
}

#[test]
fn test_has_email_false_when_empty() {
    let cfg = Config {
        email: Some(String::new()),
        ..Config::default()
    };
    assert!(!cfg.has_email());
}

#[test]
fn test_has_email_false_when_none() {
    let cfg = Config {
        email: None,
        ..Config::default()
    };
    assert!(!cfg.has_email());
}

// ─── Further cases ────────────────────────────────────────────────────────────

#[test]
fn test_default_config_values() {
    let cfg = Config::default();
    assert_eq!(cfg.email, None);
    assert_eq!(cfg.proxy.as_deref(), Some("doi-org.ezproxy.cityu.edu.hk"));
    assert_eq!(cfg.default_rows, 10);
    assert_eq!(cfg.cache_ttl_days, 30);
    assert_eq!(cfg.cache_dir, None);
}

#[test]
fn test_env_overrides_file_and_cli_overrides_env() {
    let file = Config { email: Some("file@example.com".to_string()), ..Config::default() };
    let cfg = file.clone().with_overrides(Some("env@example.com"), None, None, None, None);
    assert_eq!(cfg.email.as_deref(), Some("env@example.com"));
    let cfg = file.clone().with_overrides(
        Some("env@example.com"),
        None,
        None,
        None,
        Some("cli@example.com"),
    );
    assert_eq!(cfg.email.as_deref(), Some("cli@example.com"));
    let cfg = file.with_overrides(Some(""), Some(""), None, None, None);
    assert_eq!(cfg.email.as_deref(), Some("file@example.com"), "empty env values are ignored");
    assert_eq!(cfg.proxy.as_deref(), Some("doi-org.ezproxy.cityu.edu.hk"));
}

#[test]
fn test_numeric_env_overrides() {
    let cfg = Config::default().with_overrides(None, Some("proxy.example"), Some("25"), Some("x"), None);
    assert_eq!(cfg.default_rows, 25);
    assert_eq!(cfg.cache_ttl_days, 30, "an unparsable TTL is ignored");
    assert_eq!(cfg.proxy.as_deref(), Some("proxy.example"));
    let cfg = Config::default().with_overrides(None, None, Some("4294967296"), Some("+0"), None);
    assert_eq!(cfg.default_rows, 10, "a value beyond u32 is ignored");
    assert_eq!(cfg.cache_ttl_days, 0);
}

#[test]
fn test_parse_u32_matches_std() {
    for s in ["0", "7", "+12", "4294967295", "4294967296", "", "+", "-1", " 1", "1a", "007"] {
        assert_eq!(parse_u32(s), s.parse::<u32>().ok(), "input {s:?}");
    }
}

#[test]
fn test_email_source_and_guidance_decisions() {
    assert!(email_source_given(Some(""), None));
    assert!(email_source_given(None, Some("a@b.c")));
    assert!(!email_source_given(None, Some("")));
    assert!(!email_source_given(None, None));
    let cfg = Config::default();
    assert!(cfg.needs_first_run_guidance(false));
    assert!(!cfg.needs_first_run_guidance(true));
    let cfg = Config { email: Some("u@example.com".to_string()), ..Config::default() };
    assert!(!cfg.needs_first_run_guidance(false));
}

#[test]
fn test_config_file_path_variants() {
    assert_eq!(config_file_path(None, Some(&b"/home/u/.config"[..])).unwrap(), b"/home/u/.config/crossref.toml".to_vec());
    assert_eq!(config_file_path(None, Some(&b"/home/u/.config/"[..])).unwrap(), b"/home/u/.config/crossref.toml".to_vec());
    assert_eq!(config_file_path(Some("x.toml"), Some(&b"/d"[..])).unwrap(), b"x.toml".to_vec());
    assert_eq!(config_file_path(None, Some(&b"/h/\xff"[..])).unwrap(), b"/h/\xff/crossref.toml".to_vec());
    assert!(matches!(config_file_path(None, None), Err(CrossrefError::Config(_))));
}

#[test]
fn test_default_config_text_contains_fields() {
    let content = default_config_text("2024-01-02");
    assert!(content.contains("email"), "default config should contain email field");
    assert!(content.contains("cache_ttl_days"), "default config should contain cache_ttl_days");
    assert_eq!(content.matches("2024-01-02").count(), 2);
    assert!(content.starts_with("# crossref-rs Default Configuration File\n"));
}

#[test]
fn test_guidance_box_layout() {
    let text = guidance_box("/tmp/c.toml", "TOP".to_string(), "BOTTOM".to_string());
    let lines: Vec<&str> = text.split('\n').collect();
    assert_eq!(lines.len(), 17);
    assert_eq!(lines[0], "TOP");
    assert_eq!(lines[16], "BOTTOM");
    assert_eq!(lines[2], format!("╟{}╢", "─".repeat(62)));
    for (i, l) in lines[1..16].iter().enumerate() {
        assert_eq!(l.chars().count(), 64, "row {} is misaligned", i + 1);
        if i + 1 != 2 {
            assert!(l.starts_with('║') && l.ends_with('║'));
        }
    }
    assert_eq!(
        lines[1],
        "║                 crossref-rs First-Run Setup                  ║"
    );
    assert_eq!(
        lines[3],
        "║ A default configuration file has been created for you at:    ║"
    );
    assert!(lines[4].starts_with("║   /tmp/c.toml "));
    assert!(text.contains("CROSSREF_EMAIL=you@example.com"));
}

#[test]
fn test_first_run_guidance_text_is_aligned() {
    let full = first_run_guidance_text("~/.config/crossref.toml");
    let plain = full.replace("\u{1b}[96m", "").replace("\u{1b}[0m", "");
    let lines: Vec<&str> = plain.split('\n').collect();
    assert_eq!(lines.len(), 17);
    assert_eq!(lines[0], format!("╔{}╗", "═".repeat(62)));
    assert_eq!(lines[16], format!("╚{}╝", "═".repeat(62)));
    for l in &lines {
        assert_eq!(l.chars().count(), 64);
    }
    assert_eq!(
        lines[4],
        "║   ~/.config/crossref.toml                                    ║"
    );
}

#[test]
fn test_startup_step() {
    assert_eq!(startup_step(false, false), StartupStep::CreateDefaultAndGuide);
    assert_eq!(startup_step(true, false), StartupStep::LoadConfig);
    assert_eq!(startup_step(false, true), StartupStep::LoadConfig);
    assert_eq!(startup_step(true, true), StartupStep::LoadConfig);
}
