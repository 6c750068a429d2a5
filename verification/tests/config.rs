use mptube::config::{allowed_domains_setting, parse_domain_list, parse_u64, Config, EnvValues};
use std::path::PathBuf;

#[test]
fn domain_lists() {
    assert_eq!(
        parse_domain_list(" YouTube.com ,, vimeo.com,"),
        vec!["youtube.com".to_string(), "vimeo.com".to_string()]
    );
    assert!(parse_domain_list("").is_empty());
}

#[test]
fn allow_list_setting() {
    assert_eq!(allowed_domains_setting(Some("true"), Some("a.com")), None);
    assert_eq!(allowed_domains_setting(Some("yes"), Some("a.com")), Some(vec!["a.com".to_string()]));
    let d = allowed_domains_setting(None, None).unwrap();
    assert_eq!(d.len(), 10);
    assert_eq!(d[0], "youtube.com");
    assert_eq!(d[9], "soundcloud.com");
}

#[test]
fn numbers() {
    assert_eq!(parse_u64("42"), Some(42));
    assert_eq!(parse_u64("+7"), Some(7));
    assert_eq!(parse_u64("007"), Some(7));
    assert_eq!(parse_u64("18446744073709551615"), Some(u64::MAX));
    assert_eq!(parse_u64("18446744073709551616"), None);
    assert_eq!(parse_u64(""), None);
    assert_eq!(parse_u64("+"), None);
    assert_eq!(parse_u64("-1"), None);
    assert_eq!(parse_u64(" 1"), None);
    assert_eq!(parse_u64("12a"), None);
    for s in ["0", "9", "+12", "99999", "123456789012"] {
        assert_eq!(parse_u64(s), s.parse::<u64>().ok());
    }
}

fn empty_env() -> EnvValues {
    EnvValues {
        port: None,
        download_dir: None,
        frontend_dist: None,
        ytdlp_bin: None,
        ffmpeg_bin: None,
        retention_minutes: None,
        max_concurrent_downloads: None,
        max_concurrent_per_ip: None,
        rate_limit_per_minute: None,
        allow_any_domain: None,
        allowed_domains: None,
        min_free_disk_mb: None,
    }
}

#[test]
fn default_settings() {
    let c = Config::from_env_values(empty_env());
    assert_eq!(c.port, 8080);
    assert_eq!(c.download_dir, PathBuf::from("/data/downloads"));
    assert_eq!(c.frontend_dist, PathBuf::from("dist"));
    assert_eq!(c.ytdlp_bin, "yt-dlp");
    assert_eq!(c.ffmpeg_bin, None);
    assert_eq!(c.retention_minutes, 60);
    assert_eq!(c.max_concurrent_downloads, 4);
    assert_eq!(c.max_concurrent_per_ip, 2);
    assert_eq!(c.rate_limit_per_minute, 20);
    assert_eq!(c.min_free_disk_mb, 500);
    assert_eq!(c.allowed_domains.unwrap().len(), 10);
}

#[test]
fn settings_from_values() {
    let mut e = empty_env();
    e.port = Some("70000".to_string());
    e.retention_minutes = Some("5".to_string());
    e.max_concurrent_per_ip = Some("x".to_string());
    e.download_dir = Some("/tmp/d".to_string());
    e.ffmpeg_bin = Some("/bin/ffmpeg".to_string());
    e.allow_any_domain = Some("true".to_string());
    let c = Config::from_env_values(e);
    assert_eq!(c.port, 8080);
    assert_eq!(c.retention_minutes, 5);
    assert_eq!(c.max_concurrent_per_ip, 2);
    assert_eq!(c.download_dir, PathBuf::from("/tmp/d"));
    assert_eq!(c.ffmpeg_bin.as_deref(), Some("/bin/ffmpeg"));
    assert_eq!(c.allowed_domains, None);
}
