use mptube::domains::{parsed_url_allowed, url_allowed, UrlParts};

#[test]
fn allows_listed_domain_and_subdomains() {
    let allowed = Some(vec!["youtube.com".to_string()]);
    assert!(url_allowed("https://youtube.com/watch?v=1", &allowed));
    assert!(url_allowed("https://www.youtube.com/watch?v=1", &allowed));
    assert!(url_allowed("https://m.youtube.com/watch?v=1", &allowed));
}

#[test]
fn rejects_other_domains_and_lookalikes() {
    let allowed = Some(vec!["youtube.com".to_string()]);
    assert!(!url_allowed("https://evil.com/youtube.com", &allowed));
    assert!(!url_allowed("https://notyoutube.com/watch?v=1", &allowed));
    assert!(!url_allowed("not a url", &allowed));
}

#[test]
fn none_allows_everything() {
    assert!(url_allowed("https://anything.example", &None));
}

#[test]
fn rejects_non_http_schemes() {
    let allowed = Some(vec!["youtube.com".to_string()]);
    assert!(!url_allowed("ftp://youtube.com/file", &allowed));
    assert!(!url_allowed("file:///etc/passwd", &allowed));
}

#[test]
fn host_is_compared_in_lowercase() {
    let allowed = Some(vec!["youtube.com".to_string()]);
    assert!(url_allowed("https://WWW.YouTube.COM/watch?v=1", &allowed));
}

#[test]
fn any_listed_domain_is_enough() {
    let allowed = Some(vec!["vimeo.com".to_string(), "youtu.be".to_string()]);
    assert!(url_allowed("https://youtu.be/abc", &allowed));
    assert!(url_allowed("http://player.vimeo.com/video/1", &allowed));
    assert!(!url_allowed("https://youtube.com/watch?v=1", &allowed));
}

#[test]
fn empty_list_rejects_everything() {
    let allowed: Option<Vec<String>> = Some(vec![]);
    assert!(!url_allowed("https://youtube.com/watch?v=1", &allowed));
}

#[test]
fn parsed_parts() {
    let list = vec!["youtube.com".to_string()];
    let parts = |scheme: &str, host: Option<&str>| {
        Some(UrlParts { scheme: scheme.to_string(), host: host.map(|h| h.to_string()) })
    };
    assert!(parsed_url_allowed(&parts("https", Some("m.YouTube.com")), &list));
    assert!(!parsed_url_allowed(&parts("ftp", Some("youtube.com")), &list));
    assert!(!parsed_url_allowed(&parts("https", None), &list));
    assert!(!parsed_url_allowed(&None, &list));
    assert!(!parsed_url_allowed(&parts("http", Some("youtube.com.evil.com")), &list));
}
