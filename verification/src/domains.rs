//! Which URLs the server accepts: only http(s) links whose host is one of the
//! allowed domains or a subdomain of one.
use vstd::prelude::*;
use crate::text::{chars_eq, chars_of, ends_with, ends_with_chars, lowercase, to_lowercase, views};

verus! {

broadcast use vstd::string::group_string_axioms;

/// What `url::Url::parse` makes of `raw`: `None` when it is not an absolute
/// URL, else the URL's scheme and its host (`Url::scheme`, `Url::host_str`).
pub uninterp spec fn url_parts(raw: Seq<char>) -> Option<(Seq<char>, Option<Seq<char>>)>;

/// The scheme and host of a parsed URL.
pub struct UrlParts {
    pub scheme: String,
    pub host: Option<String>,
}

/// Calls `url::Url::parse` and keeps the scheme and host of the result
/// (`Url::scheme`, `Url::host_str`). The contract says only that the result
/// is what the parser gives for `raw`, under the name `url_parts`.
#[verifier::external_body]
fn parse_url(raw: &str) -> (r: Option<UrlParts>)
    ensures
        parts_view(r) == url_parts(raw@),
{
    match url::Url::parse(raw) {
        Ok(u) => Some(UrlParts { scheme: u.scheme().to_string(), host: u.host_str().map(|h| h.to_string()) }),
        Err(_) => None,
    }
}

/// `host` is `domain` itself or a subdomain of it.
pub open spec fn host_matches(host: Seq<char>, domain: Seq<char>) -> bool {
    host == domain || ends_with(host, "."@ + domain)
}

/// The views of an optional list of domains.
pub open spec fn allowed_view(allowed: Option<Vec<String>>) -> Option<Seq<Seq<char>>> {
    match allowed {
        Some(v) => Some(views(v@)),
        None => None,
    }
}

/// Some domain of `list` admits `host` (compared in lowercase).
pub open spec fn host_listed(host: Seq<char>, list: Seq<Seq<char>>) -> bool {
    exists|i: int| 0 <= i < list.len() && host_matches(lowercase(host), #[trigger] list[i])
}

/// The view of a parsed URL's scheme and host.
pub open spec fn parts_view(p: Option<UrlParts>) -> Option<(Seq<char>, Option<Seq<char>>)> {
    match p {
        None => None,
        Some(p) => Some(
            (p.scheme@, match p.host {
                Some(h) => Some(h@),
                None => None,
            }),
        ),
    }
}

/// Whether a URL that parsed to `parts` (`None`: it did not parse) is on the
/// allow-list `list`: it must use http or https and have a host that,
/// lowercased, is a listed domain or one of its subdomains.
pub open spec fn parts_permitted(parts: Option<(Seq<char>, Option<Seq<char>>)>, list: Seq<Seq<char>>) -> bool {
    match parts {
        None => false,
        Some(p) => (p.0 == "http"@ || p.0 == "https"@) && match p.1 {
            None => false,
            Some(h) => host_listed(h, list),
        },
    }
}

/// Whether `raw` may be downloaded under the allow-list `allowed`
/// (`None`: any URL).
pub open spec fn url_permitted(raw: Seq<char>, allowed: Option<Seq<Seq<char>>>) -> bool {
    match allowed {
        None => true,
        Some(list) => parts_permitted(url_parts(raw), list),
    }
}

/// Whether `host` equals `domain` or ends with `"." + domain`.
fn host_matches_exec(host: &[char], domain: &str) -> (r: bool)
    ensures
        r == host_matches(host@, domain@),
{
    let d = chars_of(domain);
    if chars_eq(host, d.as_slice()) {
        return true;
    }
    let mut dotted = chars_of(".");
    crate::text::extend_chars(&mut dotted, d.as_slice());
    ends_with_chars(host, dotted.as_slice())
}

/// Whether a URL that `url::Url::parse` turned into `parts` (`None`: it did
/// not parse) is on the allow-list `list`.
pub fn parsed_url_allowed(parts: &Option<UrlParts>, list: &Vec<String>) -> (r: bool)
    ensures
        r == parts_permitted(parts_view(*parts), views(list@)),
{
    let p = match parts {
        None => return false,
        Some(p) => p,
    };
    let scheme = chars_of(p.scheme.as_str());
    let http = chars_of("http");
    let https = chars_of("https");
    if !chars_eq(scheme.as_slice(), http.as_slice()) && !chars_eq(
        scheme.as_slice(),
        https.as_slice(),
    ) {
        return false;
    }
    let host = match &p.host {
        None => return false,
        Some(h) => h,
    };
    let lower = to_lowercase(host.as_str());
    let host_chars = chars_of(lower.as_str());
    let n = list.len();
    let ghost lv = views(list@);
    for i in 0..n
        invariant
            n == list@.len(),
            lv == views(list@),
            host_chars@ == lowercase(host@),
            parts_view(*parts) == Some((scheme@, Some(host@))),
            scheme@ == "http"@ || scheme@ == "https"@,
            forall|j: int| 0 <= j < i ==> !host_matches(host_chars@, #[trigger] lv[j]),
    {
        if host_matches_exec(host_chars.as_slice(), list[i].as_str()) {
            assert(host_matches(lowercase(host@), lv[i as int]));
            return true;
        }
    }
    false
}

/// Checks that the URL belongs to an allowed domain. `allowed = None` means
/// that every URL is accepted; otherwise the URL must parse, use http or
/// https, and have a host that (lowercased) is a listed domain or one of its
/// subdomains.
pub fn url_allowed(raw_url: &str, allowed: &Option<Vec<String>>) -> (r: bool)
    ensures
        r == url_permitted(raw_url@, allowed_view(*allowed)),
{
    match allowed {
        None => true,
        Some(list) => {
            let parts = parse_url(raw_url);
            parsed_url_allowed(&parts, list)
        },
    }
}

/// Law: every subdomain of a domain matches it.
pub proof fn lemma_subdomain_matches(label: Seq<char>, domain: Seq<char>)
    ensures
        host_matches(label + "."@ + domain, domain),
{
    let h = label + "."@ + domain;
    let suffix = "."@ + domain;
    assert(h.subrange(h.len() - suffix.len(), h.len() as int) =~= suffix);
}

/// Law: without an allow-list every URL is accepted.
pub proof fn lemma_no_list_allows_all(raw: Seq<char>)
    ensures
        url_permitted(raw, None),
{
}

} // verus!
