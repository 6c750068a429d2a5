//! The server's settings and the bodies of its requests.
use vstd::prelude::*;
use std::path::PathBuf;
use crate::command::str_opt_view;
use crate::progress::opt_view;
use crate::text::{
    char_views, chars_of, lowercase, split_chars, split_on, string_of, to_lowercase, trim,
    trim_chars, views,
};

verus! {

broadcast use vstd::string::group_string_axioms;

#[verifier::external_type_specification]
#[verifier::external_body]
pub struct ExPathBuf(std::path::PathBuf);

/// The domains accepted when `ALLOWED_DOMAINS` is not set, comma-separated.
pub const DEFAULT_ALLOWED_DOMAINS: &'static str = "youtube.com,youtu.be,instagram.com,tiktok.com,twitter.com,x.com,facebook.com,fb.watch,vimeo.com,soundcloud.com";

/// Body of `POST /api/formats`.
pub struct FormatsRequest {
    pub url: String,
}

/// Body of `POST /api/downloads` (`mediaType` in JSON).
pub struct StartDownloadRequest {
    pub id: String,
    pub url: String,
    pub media_type: String,
    pub format: String,
    pub quality: String,
}

/// The server's settings, read from the environment.
pub struct Config {
    pub port: u16,
    pub download_dir: PathBuf,
    pub frontend_dist: PathBuf,
    pub ytdlp_bin: String,
    pub ffmpeg_bin: Option<String>,
    pub retention_minutes: u64,
    pub max_concurrent_downloads: usize,
    pub max_concurrent_per_ip: usize,
    pub rate_limit_per_minute: u64,
    /// `None`: any domain is accepted (internal, trusted use).
    pub allowed_domains: Option<Vec<String>>,
    pub min_free_disk_mb: u64,
}

/// The non-empty entries among `entries`, in order.
pub open spec fn non_empty(entries: Seq<Seq<char>>) -> Seq<Seq<char>>
    decreases entries.len(),
{
    if entries.len() == 0 {
        Seq::empty()
    } else if entries.last().len() > 0 {
        non_empty(entries.drop_last()).push(entries.last())
    } else {
        non_empty(entries.drop_last())
    }
}

/// The domains of a comma-separated list: each entry trimmed and lowercased,
/// empty entries left out.
pub open spec fn domain_list(raw: Seq<char>) -> Seq<Seq<char>> {
    non_empty(split_on(raw, ',').map_values(|p: Seq<char>| lowercase(trim(p))))
}

/// The allow-list: none when `ALLOW_ANY_DOMAIN` is `"true"`, else the domains
/// of `ALLOWED_DOMAINS`, or of the default list when it is not set.
pub open spec fn allowed_setting(allow_any: Option<Seq<char>>, domains: Option<Seq<char>>) -> Option<Seq<Seq<char>>> {
    if allow_any == Some("true"@) {
        None
    } else {
        Some(
            domain_list(
                match domains {
                    Some(d) => d,
                    None => DEFAULT_ALLOWED_DOMAINS@,
                },
            ),
        )
    }
}

/// The domains of a comma-separated list.
pub fn parse_domain_list(raw: &str) -> (r: Vec<String>)
    ensures
        views(r@) == domain_list(raw@),
{
    let c = chars_of(raw);
    let pieces = split_chars(c.as_slice(), ',');
    let ghost ps = char_views(pieces@).map_values(|p: Seq<char>| lowercase(trim(p)));
    let n = pieces.len();
    let mut out: Vec<String> = Vec::new();
    for i in 0..n
        invariant
            n == pieces@.len(),
            ps == char_views(pieces@).map_values(|p: Seq<char>| lowercase(trim(p))),
            char_views(pieces@) == split_on(raw@, ','),
            views(out@) == non_empty(ps.take(i as int)),
    {
        proof {
            assert(ps.take(i + 1).drop_last() =~= ps.take(i as int));
            assert(ps.take(i + 1).last() == lowercase(trim(pieces@[i as int]@)));
        }
        let t = trim_chars(pieces[i].as_slice());
        let t = string_of(t.as_slice());
        let lower = to_lowercase(t.as_str());
        let lc = chars_of(lower.as_str());
        if lc.len() > 0 {
            let ghost before = views(out@);
            out.push(lower);
            assert(views(out@) =~= before.push(lc@));
        }
    }
    assert(ps.take(n as int) =~= ps);
    out
}

/// The allow-list from the values of `ALLOW_ANY_DOMAIN` and `ALLOWED_DOMAINS`
/// (`None` where a variable is not set).
pub fn allowed_domains_setting(allow_any: Option<&str>, domains: Option<&str>) -> (r: Option<Vec<String>>)
    ensures
        match r {
            Some(v) => allowed_setting(str_opt_view(allow_any), str_opt_view(domains)) == Some(
                views(v@),
            ),
            None => allowed_setting(str_opt_view(allow_any), str_opt_view(domains)) is None,
        },
{
    let any = match allow_any {
        Some(v) => crate::command::str_eq(v, "true"),
        None => false,
    };
    if any {
        return None;
    }
    match domains {
        Some(d) => Some(parse_domain_list(d)),
        None => Some(parse_domain_list(DEFAULT_ALLOWED_DOMAINS)),
    }
}

// ───────────────────────────── settings from the environment ─────────────────────────────

/// The environment variables the server reads, as text (`None`: not set, or
/// not valid Unicode).
pub struct EnvValues {
    pub port: Option<String>,
    pub download_dir: Option<String>,
    pub frontend_dist: Option<String>,
    pub ytdlp_bin: Option<String>,
    pub ffmpeg_bin: Option<String>,
    pub retention_minutes: Option<String>,
    pub max_concurrent_downloads: Option<String>,
    pub max_concurrent_per_ip: Option<String>,
    pub rate_limit_per_minute: Option<String>,
    pub allow_any_domain: Option<String>,
    pub allowed_domains: Option<String>,
    pub min_free_disk_mb: Option<String>,
}

/// The value of `PathBuf::from(s)`.
pub uninterp spec fn path_of(s: Seq<char>) -> PathBuf;

/// Calls `PathBuf::from` on a `String`. The contract names the result
/// `path_of(s@)`: the same text gives the same path.
#[verifier::external_body]
fn path_from(s: String) -> (p: PathBuf)
    ensures
        p == path_of(s@),
{
    PathBuf::from(s)
}

/// An ASCII decimal digit.
pub open spec fn is_digit(c: char) -> bool {
    '0' <= c && c <= '9'
}

/// The number written by the decimal digits `d`.
pub open spec fn digits_value(d: Seq<char>) -> nat
    decreases d.len(),
{
    if d.len() == 0 {
        0
    } else {
        digits_value(d.drop_last()) * 10 + ((d.last() as int) - ('0' as int)) as nat
    }
}

/// The digits of an unsigned number: `s` without one leading `+`.
pub open spec fn unsigned_digits(s: Seq<char>) -> Seq<char> {
    if s.len() > 0 && s[0] == '+' {
        s.drop_first()
    } else {
        s
    }
}

/// Every character of `d` is a decimal digit.
pub open spec fn all_digits(d: Seq<char>) -> bool {
    forall|i: int| 0 <= i < d.len() ==> is_digit(#[trigger] d[i])
}

/// What `str::parse` reads as an unsigned integer, before the type's range
/// is checked: an optional `+` followed by one or more decimal digits.
pub open spec fn unsigned_value(s: Seq<char>) -> Option<nat> {
    let d = unsigned_digits(s);
    if d.len() > 0 && all_digits(d) {
        Some(digits_value(d))
    } else {
        None
    }
}

/// `str::parse` into an unsigned integer type whose largest value is `max`.
pub open spec fn parsed_unsigned(s: Seq<char>, max: nat) -> Option<nat> {
    match unsigned_value(s) {
        Some(v) => if v <= max {
            Some(v)
        } else {
            None
        },
        None => None,
    }
}

/// A numeric setting: the variable's value when it parses, else `default`.
pub open spec fn number_or(value: Option<Seq<char>>, default: nat, max: nat) -> nat {
    match value {
        Some(s) => match parsed_unsigned(s, max) {
            Some(v) => v,
            None => default,
        },
        None => default,
    }
}

/// A text setting: the variable's value when set, else `default`.
pub open spec fn text_or(value: Option<Seq<char>>, default: Seq<char>) -> Seq<char> {
    match value {
        Some(s) => s,
        None => default,
    }
}

proof fn lemma_digits_value_grows(d: Seq<char>, k: int)
    requires
        0 <= k <= d.len(),
        forall|i: int| 0 <= i < d.len() ==> is_digit(#[trigger] d[i]),
    ensures
        digits_value(d) >= digits_value(d.take(k)),
    decreases d.len(),
{
    if k < d.len() {
        let e = d.drop_last();
        assert forall|i: int| 0 <= i < e.len() implies is_digit(#[trigger] e[i]) by {
            assert(e[i] == d[i]);
        }
        lemma_digits_value_grows(e, k);
        assert(e.take(k) =~= d.take(k));
        assert(is_digit(d.last()));
    } else {
        assert(d.take(k) =~= d);
    }
}

/// `str::parse::<u64>`.
pub fn parse_u64(s: &str) -> (r: Option<u64>)
    ensures
        match r {
            Some(v) => parsed_unsigned(s@, u64::MAX as nat) == Some(v as nat),
            None => parsed_unsigned(s@, u64::MAX as nat) is None,
        },
{
    let c = chars_of(s);
    let n = c.len();
    let start: usize = if n > 0 && c[0] == '+' {
        1
    } else {
        0
    };
    let ghost d = unsigned_digits(s@);
    assert(d =~= c@.subrange(start as int, n as int));
    if start >= n {
        return None;
    }
    let mut acc: u128 = 0;
    let mut i = start;
    assert(d.take(0) =~= Seq::<char>::empty());
    while i < n
        invariant
            start <= i <= n,
            n == c@.len(),
            c@ == s@,
            d =~= c@.subrange(start as int, n as int),
            d == unsigned_digits(s@),
            d.len() > 0,
            acc <= u64::MAX,
            acc == digits_value(d.take(i - start)),
            forall|j: int| 0 <= j < i - start ==> is_digit(#[trigger] d[j]),
        decreases n - i,
    {
        let ch = c[i];
        assert(d[i - start] == ch);
        if !('0' <= ch && ch <= '9') {
            assert(!is_digit(d[i - start]));
            assert(!all_digits(d));
            return None;
        }
        let digit = (ch as u32 - '0' as u32) as u128;
        let next = acc * 10 + digit;
        proof {
            let t = d.take(i - start + 1);
            assert(t.drop_last() =~= d.take(i - start));
            assert(t.last() == ch);
            assert(next == digits_value(t));
        }
        if next > u64::MAX as u128 {
            proof {
                if all_digits(d) {
                    lemma_digits_value_grows(d, i - start + 1);
                    assert(digits_value(d) > u64::MAX);
                }
            }
            return None;
        }
        acc = next;
        i = i + 1;
    }
    assert(d.take(n - start) =~= d);
    assert(all_digits(d));
    Some(acc as u64)
}

fn number_setting(value: &Option<String>, default: u64, max: u64) -> (r: u64)
    requires
        default <= max,
    ensures
        r == number_or(opt_view(*value), default as nat, max as nat),
{
    match value {
        Some(v) => match parse_u64(v.as_str()) {
            Some(x) => if x <= max {
                x
            } else {
                default
            },
            None => {
                proof {
                    if unsigned_value(v@) is Some {
                        assert(unsigned_value(v@)->0 > u64::MAX);
                    }
                }
                default
            },
        },
        None => default,
    }
}

fn text_setting(value: Option<String>, default: &str) -> (r: String)
    ensures
        r@ == text_or(opt_view(value), default@),
{
    match value {
        Some(v) => v,
        None => default.to_string(),
    }
}

impl Config {
    /// The settings for the environment values `env`: each number is the
    /// variable's value when it parses as a number of its type, else its
    /// default (port 8080, retention 60 minutes, 4 downloads at once, 2 per
    /// client, 20 requests a minute, 500 MiB free); paths and the yt-dlp
    /// binary default to `/data/downloads`, `dist` and `yt-dlp`; ffmpeg is
    /// looked up on `PATH` unless given; the allow-list is `allowed_setting`.
    pub fn from_env_values(env: EnvValues) -> (r: Config)
        ensures
            r.port as nat == number_or(opt_view(env.port), 8080, u16::MAX as nat),
            r.download_dir == path_of(text_or(opt_view(env.download_dir), "/data/downloads"@)),
            r.frontend_dist == path_of(text_or(opt_view(env.frontend_dist), "dist"@)),
            r.ytdlp_bin@ == text_or(opt_view(env.ytdlp_bin), "yt-dlp"@),
            r.ffmpeg_bin == env.ffmpeg_bin,
            r.retention_minutes as nat == number_or(opt_view(env.retention_minutes), 60, u64::MAX as nat),
            r.max_concurrent_downloads as nat == number_or(
                opt_view(env.max_concurrent_downloads),
                4,
                usize::MAX as nat,
            ),
            r.max_concurrent_per_ip as nat == number_or(
                opt_view(env.max_concurrent_per_ip),
                2,
                usize::MAX as nat,
            ),
            r.rate_limit_per_minute as nat == number_or(opt_view(env.rate_limit_per_minute), 20, u64::MAX as nat),
            r.min_free_disk_mb as nat == number_or(opt_view(env.min_free_disk_mb), 500, u64::MAX as nat),
            match r.allowed_domains {
                Some(v) => allowed_setting(opt_view(env.allow_any_domain), opt_view(env.allowed_domains))
                    == Some(views(v@)),
                None => allowed_setting(opt_view(env.allow_any_domain), opt_view(env.allowed_domains)) is None,
            },
    {
        let allowed_domains = {
            let any = match &env.allow_any_domain {
                Some(v) => Some(v.as_str()),
                None => None,
            };
            let list = match &env.allowed_domains {
                Some(v) => Some(v.as_str()),
                None => None,
            };
            allowed_domains_setting(any, list)
        };
        let port = number_setting(&env.port, 8080, 65535) as u16;
        let retention_minutes = number_setting(&env.retention_minutes, 60, u64::MAX);
        let max_concurrent_downloads = number_setting(
            &env.max_concurrent_downloads,
            4,
            usize::MAX as u64,
        ) as usize;
        let max_concurrent_per_ip = number_setting(&env.max_concurrent_per_ip, 2, usize::MAX as u64) as usize;
        let rate_limit_per_minute = number_setting(&env.rate_limit_per_minute, 20, u64::MAX);
        let min_free_disk_mb = number_setting(&env.min_free_disk_mb, 500, u64::MAX);
        Config {
            port,
            download_dir: path_from(text_setting(env.download_dir, "/data/downloads")),
            frontend_dist: path_from(text_setting(env.frontend_dist, "dist")),
            ytdlp_bin: text_setting(env.ytdlp_bin, "yt-dlp"),
            ffmpeg_bin: env.ffmpeg_bin,
            retention_minutes,
            max_concurrent_downloads,
            max_concurrent_per_ip,
            rate_limit_per_minute,
            allowed_domains,
            min_free_disk_mb,
        }
    }
}

} // verus!
