use mptube::config::StartDownloadRequest;
use mptube::server::{
    admit_download, attachment_disposition, check_disk_space, enough_space, pick_client_ip, ip_header_candidates, is_expired, rate_limit_params,
    sanitize_filename, valid_id, IpKey, IpSlots, Rejection,
};

#[test]
fn ids() {
    assert!(valid_id("abc_DEF-123"));
    assert!(!valid_id(""));
    assert!(!valid_id("a/b"));
    assert!(!valid_id("é"));
    assert!(valid_id(&"a".repeat(64)));
    assert!(!valid_id(&"a".repeat(65)));
}

#[test]
fn filenames() {
    assert_eq!(sanitize_filename("My Video (1).mp4"), "My Video _1_.mp4");
    assert_eq!(sanitize_filename("Ação.mp3"), "A__o.mp3");
    assert_eq!(sanitize_filename("   "), "download");
    assert_eq!(sanitize_filename(""), "download");
    assert_eq!(attachment_disposition("a\"b.mp4"), "attachment; filename=\"a_b.mp4\"");
}

#[test]
fn ip_candidates() {
    let c = ip_header_candidates(Some(" 1.2.3.4 , 5.6.7.8"), Some(" 9.9.9.9"));
    assert_eq!(c, vec!["1.2.3.4".to_string(), "9.9.9.9".to_string()]);
    assert!(ip_header_candidates(None, None).is_empty());
}

#[test]
fn disk_space() {
    assert!(enough_space(None, 500));
    assert!(enough_space(Some(500 * 1024 * 1024), 500));
    assert!(!enough_space(Some(500 * 1024 * 1024 - 1), 500));
}

#[test]
fn per_ip_slots() {
    let mut s = IpSlots::new();
    let a = IpKey::V4(0x7f000001);
    let b = IpKey::V6(1);
    assert!(s.try_acquire(a, 2));
    assert!(s.try_acquire(a, 2));
    assert!(!s.try_acquire(a, 2));
    assert!(s.try_acquire(b, 2));
    assert_eq!(s.count(a), 2);
    s.release(a);
    assert_eq!(s.count(a), 1);
    s.release(a);
    s.release(a);
    assert_eq!(s.count(a), 0);
    assert_eq!(s.count(b), 1);
    assert!(!s.try_acquire(a, 0));
}

fn request(id: &str, url: &str) -> StartDownloadRequest {
    StartDownloadRequest {
        id: id.to_string(),
        url: url.to_string(),
        media_type: "video".to_string(),
        format: "mp4".to_string(),
        quality: "720p".to_string(),
    }
}

#[test]
fn admission() {
    let allowed = Some(vec!["youtube.com".to_string()]);
    let ip = IpKey::V4(1);
    let mut s = IpSlots::new();
    let r = request("bad id", "https://youtube.com/x");
    assert_eq!(admit_download(&mut s, &r, &allowed, ip, 1), Err(Rejection::InvalidId));
    let r = request("ok", "https://evil.com/x");
    assert_eq!(admit_download(&mut s, &r, &allowed, ip, 1), Err(Rejection::DomainNotAllowed));
    let r = request("ok", "https://youtube.com/x");
    assert_eq!(admit_download(&mut s, &r, &allowed, ip, 1), Ok(()));
    assert_eq!(s.count(ip), 1);
    assert_eq!(check_disk_space(&mut s, ip, Some(0), 500), Err(Rejection::NoDiskSpace));
    assert_eq!(s.count(ip), 0);
    assert_eq!(admit_download(&mut s, &r, &allowed, ip, 1), Ok(()));
    assert_eq!(check_disk_space(&mut s, ip, None, 500), Ok(()));
    assert_eq!(s.count(ip), 1);
    assert_eq!(admit_download(&mut s, &r, &allowed, ip, 1), Err(Rejection::TooManyDownloads));
    assert_eq!(s.count(ip), 1);
    assert_eq!(Rejection::TooManyDownloads.status(), 429);
    assert_eq!(Rejection::NoDiskSpace.status(), 507);
    assert_eq!(Rejection::InvalidId.message(), "id inválido");
}

#[test]
fn zero_limit_refuses_and_keeps_count_at_zero() {
    let mut s = IpSlots::new();
    let a = IpKey::V6(7);
    assert!(!s.try_acquire(a, 0));
    assert_eq!(s.count(a), 0);
    s.release(a);
    assert_eq!(s.count(a), 0);
    assert!(s.try_acquire(a, 1));
    assert_eq!(s.count(a), 1);
}

#[test]
fn client_ip_choice() {
    let peer = IpKey::V4(9);
    assert_eq!(pick_client_ip(&[None, Some(IpKey::V4(2))], peer), IpKey::V4(2));
    assert_eq!(pick_client_ip(&[Some(IpKey::V4(1)), Some(IpKey::V4(2))], peer), IpKey::V4(1));
    assert_eq!(pick_client_ip(&[None, None], peer), peer);
    assert_eq!(pick_client_ip(&[], peer), peer);
}

#[test]
fn rate_limits() {
    assert_eq!(rate_limit_params(20), (3, 20));
    assert_eq!(rate_limit_params(0), (60, 1));
    assert_eq!(rate_limit_params(120), (1, 120));
    assert_eq!(rate_limit_params(u64::MAX), (1, u32::MAX));
}

#[test]
fn retention() {
    assert!(!is_expired(3600, 0, 60));
    assert!(is_expired(3600, 1, 60));
    assert!(is_expired(3601, 0, 60));
    assert!(!is_expired(10, 0, 60));
    assert!(is_expired(1, 0, 0));
}
