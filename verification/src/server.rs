//! The decisions of the web server: which download requests are admitted,
//! how many downloads each client may run at once, which client address is
//! trusted, and how a finished file is offered.
use vstd::prelude::*;
use crate::config::StartDownloadRequest;
use crate::domains::{allowed_view, url_allowed, url_permitted};
use crate::text::{
    char_is_ascii_alnum, chars_of, extend_chars, is_ascii_alnum, string_of, trim, trim_bounds,
    trim_chars, trim_end, trim_start,
};

verus! {

broadcast use vstd::string::group_string_axioms;

pub const UNSUPPORTED_DOMAIN_MSG: &'static str = "Este servidor só aceita links de YouTube, Instagram, TikTok, Twitter/X, Facebook, Vimeo e SoundCloud";
pub const INVALID_ID_MSG: &'static str = "id inválido";
pub const TOO_MANY_MSG: &'static str = "Você já tem downloads em andamento — aguarde um terminar antes de iniciar outro";
pub const NO_DISK_MSG: &'static str = "Servidor sem espaço em disco no momento — tente novamente mais tarde";
pub const FILE_GONE_MSG: &'static str = "Arquivo não encontrado — pode já ter expirado";
pub const FILE_MISSING_MSG: &'static str = "Arquivo não encontrado no disco";

// ───────────────────────────── identifiers and names ─────────────────────────────

/// A character allowed in a download id.
pub open spec fn id_char(c: char) -> bool {
    is_ascii_alnum(c) || c == '_' || c == '-'
}

/// A download id the server accepts: 1 to 64 characters, each an ASCII
/// letter or digit, `_` or `-` (for such ids the byte length is the number
/// of characters).
pub open spec fn is_valid_id(id: Seq<char>) -> bool {
    &&& 0 < id.len() <= 64
    &&& forall|i: int| 0 <= i < id.len() ==> id_char(#[trigger] id[i])
}

/// Whether `id` is an acceptable download id (it names a directory on disk).
pub fn valid_id(id: &str) -> (r: bool)
    ensures
        r == is_valid_id(id@),
{
    let c = chars_of(id);
    let n = c.len();
    if n == 0 || n > 64 {
        return false;
    }
    for i in 0..n
        invariant
            n == c@.len(),
            c@ == id@,
            forall|j: int| 0 <= j < i ==> id_char(#[trigger] c@[j]),
    {
        let ch = c[i];
        if !(char_is_ascii_alnum(ch) || ch == '_' || ch == '-') {
            return false;
        }
    }
    true
}

/// A character kept as it is in a file name sent to the browser.
pub open spec fn filename_char(c: char) -> bool {
    is_ascii_alnum(c) || c == '.' || c == '-' || c == '_' || c == ' '
}

/// `name` with every other character replaced by `_`.
pub open spec fn cleaned_name(name: Seq<char>) -> Seq<char> {
    name.map_values(|c: char| if filename_char(c) { c } else { '_' })
}

/// The file name sent in `Content-Disposition`: the cleaned name, or
/// `"download"` when nothing but spaces is left of it.
pub open spec fn safe_filename(name: Seq<char>) -> Seq<char> {
    if trim(cleaned_name(name)).len() == 0 {
        "download"@
    } else {
        cleaned_name(name)
    }
}

/// Makes a file name safe for a `Content-Disposition` header (ASCII only).
pub fn sanitize_filename(name: &str) -> (r: String)
    ensures
        r@ == safe_filename(name@),
{
    let c = chars_of(name);
    let n = c.len();
    let mut out: Vec<char> = Vec::new();
    for i in 0..n
        invariant
            n == c@.len(),
            c@ == name@,
            out@ == cleaned_name(name@).take(i as int),
    {
        let ch = c[i];
        if char_is_ascii_alnum(ch) || ch == '.' || ch == '-' || ch == '_' || ch == ' ' {
            out.push(ch);
        } else {
            out.push('_');
        }
        assert(out@ =~= cleaned_name(name@).take(i + 1));
    }
    assert(cleaned_name(name@).take(n as int) =~= cleaned_name(name@));
    let (i, j) = trim_bounds(out.as_slice());
    if i == j {
        return "download".to_string();
    }
    string_of(out.as_slice())
}

/// Law: the name sent to the browser is never empty and holds only ASCII
/// letters, digits, `.`, `-`, `_` and spaces.
pub proof fn lemma_safe_filename_is_plain(name: Seq<char>)
    ensures
        safe_filename(name).len() > 0,
        forall|i: int| 0 <= i < safe_filename(name).len() ==> filename_char(#[trigger] safe_filename(name)[i]),
{
    reveal_strlit("download");
    if trim(cleaned_name(name)).len() != 0 {
        if cleaned_name(name).len() == 0 {
            assert(trim_start(cleaned_name(name)) == cleaned_name(name));
            assert(trim_end(cleaned_name(name)) == cleaned_name(name));
        }
    }
}

/// The `Content-Disposition` value for a downloaded file named `name`.
pub open spec fn attachment_header(name: Seq<char>) -> Seq<char> {
    "attachment; filename=\""@ + safe_filename(name) + "\""@
}

/// The `Content-Disposition` value with which the file `name` is sent.
pub fn attachment_disposition(name: &str) -> (r: String)
    ensures
        r@ == attachment_header(name@),
{
    let safe = sanitize_filename(name);
    let mut out = chars_of("attachment; filename=\"");
    extend_chars(&mut out, chars_of(safe.as_str()).as_slice());
    extend_chars(&mut out, chars_of("\"").as_slice());
    string_of(out.as_slice())
}

// ───────────────────────────── client address ─────────────────────────────

/// The texts tried, in order, as the client's IP address: the first entry of
/// `X-Forwarded-For`, then `X-Real-IP`, each trimmed (the connection's own
/// peer address is the fallback when neither parses).
pub open spec fn ip_candidates(forwarded: Option<Seq<char>>, real_ip: Option<Seq<char>>) -> Seq<Seq<char>> {
    (match forwarded {
        Some(f) => seq![trim(crate::text::split_on(f, ',')[0])],
        None => Seq::empty(),
    }) + (match real_ip {
        Some(r) => seq![trim(r)],
        None => Seq::empty(),
    })
}

/// The texts to try, in order, as the client address, from the
/// `X-Forwarded-For` and `X-Real-IP` headers (set by the reverse proxy).
pub fn ip_header_candidates(forwarded: Option<&str>, real_ip: Option<&str>) -> (r: Vec<String>)
    ensures
        crate::text::views(r@) == ip_candidates(
            crate::command::str_opt_view(forwarded),
            crate::command::str_opt_view(real_ip),
        ),
{
    let mut out: Vec<String> = Vec::new();
    match forwarded {
        Some(f) => {
            let c = chars_of(f);
            let pieces = crate::text::split_chars(c.as_slice(), ',');
            proof {
                crate::text::lemma_split_on_nonempty(c@, ',');
            }
            let first = trim_chars(pieces[0].as_slice());
            out.push(string_of(first.as_slice()));
        },
        None => {},
    }
    let ghost mid = crate::text::views(out@);
    match real_ip {
        Some(r) => {
            let c = chars_of(r);
            let t = trim_chars(c.as_slice());
            out.push(string_of(t.as_slice()));
        },
        None => {},
    }
    assert(crate::text::views(out@) =~= ip_candidates(
        crate::command::str_opt_view(forwarded),
        crate::command::str_opt_view(real_ip),
    ));
    out
}

/// The client address chosen among the parsed candidates: the first that
/// parsed, else the connection's peer address.
pub open spec fn first_parsed(parsed: Seq<Option<IpKey>>, peer: IpKey) -> IpKey
    decreases parsed.len(),
{
    if parsed.len() == 0 {
        peer
    } else {
        match parsed[0] {
            Some(k) => k,
            None => first_parsed(parsed.drop_first(), peer),
        }
    }
}

/// The client address: the first of the header candidates (in the order of
/// `ip_header_candidates`) that parsed as an IP address, else `peer`.
pub fn pick_client_ip(parsed: &[Option<IpKey>], peer: IpKey) -> (r: IpKey)
    ensures
        r == first_parsed(parsed@, peer),
{
    let n = parsed.len();
    assert(parsed@.subrange(0, n as int) =~= parsed@);
    for i in 0..n
        invariant
            n == parsed@.len(),
            first_parsed(parsed@, peer) == first_parsed(parsed@.subrange(i as int, n as int), peer),
    {
        assert(parsed@.subrange(i as int, n as int).drop_first() =~= parsed@.subrange(
            i + 1,
            n as int,
        ));
        if let Some(k) = parsed[i] {
            return k;
        }
    }
    peer
}

// ───────────────────────────── downloads per client ─────────────────────────────

/// A client address, as the number it is: an IPv4 or an IPv6 address.
#[derive(Clone, Copy, Debug, PartialEq, Eq, Structural)]
pub enum IpKey {
    V4(u32),
    V6(u128),
}

/// How many downloads each client is running. A client keeps an entry (of 0)
/// after a refused start until one of its downloads is ended.
pub struct IpSlots {
    entries: Vec<(IpKey, usize)>,
    counts: Ghost<Map<IpKey, nat>>,
}

impl IpSlots {
    /// Each client appears once, and the ghost map holds exactly the entries.
    pub closed spec fn wf(self) -> bool {
        &&& forall|i: int, j: int|
            0 <= i < j < self.entries@.len() ==> self.entries@[i].0 != self.entries@[j].0
        &&& forall|i: int|
            0 <= i < self.entries@.len() ==> #[trigger] self.counts@.contains_key(
                self.entries@[i].0,
            ) && self.counts@[self.entries@[i].0] == self.entries@[i].1
        &&& forall|ip: IpKey|
            #[trigger] self.counts@.contains_key(ip) ==> exists|i: int|
                0 <= i < self.entries@.len() && self.entries@[i].0 == ip
    }

    /// The table of running downloads per client.
    pub closed spec fn view(self) -> Map<IpKey, nat> {
        self.counts@
    }

    /// No client is running anything.
    pub fn new() -> (r: IpSlots)
        ensures
            r.wf(),
            r.view() == Map::<IpKey, nat>::empty(),
    {
        IpSlots { entries: Vec::new(), counts: Ghost(Map::empty()) }
    }

    fn find(&self, ip: IpKey) -> (r: Option<usize>)
        requires
            self.wf(),
        ensures
            match r {
                Some(i) => i < self.entries@.len() && self.entries@[i as int].0 == ip
                    && self.view().contains_key(ip) && self.view()[ip] == self.entries@[i as int].1,
                None => !self.view().contains_key(ip),
            },
    {
        let n = self.entries.len();
        for i in 0..n
            invariant
                n == self.entries@.len(),
                self.wf(),
                forall|j: int| 0 <= j < i ==> self.entries@[j].0 != ip,
        {
            if self.entries[i].0 == ip {
                assert(self.counts@.contains_key(self.entries@[i as int].0));
                return Some(i);
            }
        }
        proof {
            if self.counts@.contains_key(ip) {
                let k = choose|k: int| 0 <= k < self.entries@.len() && self.entries@[k].0 == ip;
            }
        }
        None
    }

    /// The number of downloads `ip` is running.
    pub fn count(&self, ip: IpKey) -> (r: usize)
        requires
            self.wf(),
        ensures
            r == count_of(self.view(), ip),
    {
        match self.find(ip) {
            Some(i) => self.entries[i].1,
            None => 0,
        }
    }

    /// Sets the entry at `i` (which holds `ip`) to `c`.
    fn set_count(&mut self, i: usize, ip: IpKey, c: usize)
        requires
            old(self).wf(),
            i < old(self).entries@.len(),
            old(self).entries@[i as int].0 == ip,
        ensures
            final(self).wf(),
            final(self).view() == old(self).view().insert(ip, c as nat),
    {
        let ghost m = self.counts@;
        let ghost e = self.entries@;
        self.entries.set(i, (ip, c));
        self.counts = Ghost(m.insert(ip, c as nat));
        assert forall|k: int| 0 <= k < self.entries@.len() implies #[trigger] self.counts@.contains_key(
            self.entries@[k].0,
        ) && self.counts@[self.entries@[k].0] == self.entries@[k].1 by {
            if k != i {
                assert(self.entries@[k] == e[k]);
                assert(m.contains_key(e[k].0));
                assert(e[k].0 != e[i as int].0);
            }
        }
        assert forall|ip2: IpKey| #[trigger] self.counts@.contains_key(ip2) implies exists|k: int|
            0 <= k < self.entries@.len() && self.entries@[k].0 == ip2 by {
            if ip2 != ip {
                let k = choose|k: int| 0 <= k < e.len() && e[k].0 == ip2;
                assert(self.entries@[k].0 == ip2);
            } else {
                assert(self.entries@[i as int].0 == ip2);
            }
        }
    }

    /// Adds an entry for `ip`, which has none, with count `c`.
    fn add_entry(&mut self, ip: IpKey, c: usize)
        requires
            old(self).wf(),
            !old(self).view().contains_key(ip),
        ensures
            final(self).wf(),
            final(self).view() == old(self).view().insert(ip, c as nat),
    {
        let ghost m = self.counts@;
        let ghost e = self.entries@;
        assert forall|k: int| 0 <= k < e.len() implies e[k].0 != ip by {
            assert(m.contains_key(e[k].0));
        }
        self.entries.push((ip, c));
        self.counts = Ghost(m.insert(ip, c as nat));
        assert forall|ip2: IpKey| #[trigger] self.counts@.contains_key(ip2) implies exists|k: int|
            0 <= k < self.entries@.len() && self.entries@[k].0 == ip2 by {
            if ip2 != ip {
                let k = choose|k: int| 0 <= k < e.len() && e[k].0 == ip2;
                assert(self.entries@[k].0 == ip2);
            } else {
                assert(self.entries@[e.len() as int].0 == ip2);
            }
        }
    }

    /// Removes the entry at `i`, which holds `ip`.
    fn remove_entry(&mut self, i: usize, ip: IpKey)
        requires
            old(self).wf(),
            i < old(self).entries@.len(),
            old(self).entries@[i as int].0 == ip,
        ensures
            final(self).wf(),
            final(self).view() == old(self).view().remove(ip),
    {
        let ghost m = self.counts@;
        let ghost e = self.entries@;
        self.entries.remove(i);
        self.counts = Ghost(m.remove(ip));
        assert forall|k: int| 0 <= k < self.entries@.len() implies #[trigger] self.counts@.contains_key(
            self.entries@[k].0,
        ) && self.counts@[self.entries@[k].0] == self.entries@[k].1 by {
            if k < i {
                assert(self.entries@[k] == e[k]);
            } else {
                assert(self.entries@[k] == e[k + 1]);
            }
        }
        assert forall|ip2: IpKey| #[trigger] self.counts@.contains_key(ip2) implies exists|k: int|
            0 <= k < self.entries@.len() && self.entries@[k].0 == ip2 by {
            let k = choose|k: int| 0 <= k < e.len() && e[k].0 == ip2;
            if k < i {
                assert(self.entries@[k].0 == ip2);
            } else {
                assert(k != i);
                assert(self.entries@[k - 1].0 == ip2);
            }
        }
        assert forall|a: int, b: int| 0 <= a < b < self.entries@.len() implies self.entries@[a].0
            != self.entries@[b].0 by {
            let a2 = if a < i {
                a
            } else {
                a + 1
            };
            let b2 = if b < i {
                b
            } else {
                b + 1
            };
            assert(self.entries@[a] == e[a2]);
            assert(self.entries@[b] == e[b2]);
        }
    }

    /// Starts a download for `ip` unless it already runs `max` of them
    /// (`entry(ip).or_insert(0)`, then the comparison and the increment).
    pub fn try_acquire(&mut self, ip: IpKey, max: usize) -> (r: bool)
        requires
            old(self).wf(),
        ensures
            final(self).wf(),
            r == (count_of(old(self).view(), ip) < max),
            final(self).view() == if r {
                acquired(old(self).view(), ip)
            } else {
                refused(old(self).view(), ip)
            },
    {
        match self.find(ip) {
            Some(i) => {
                let c = self.entries[i].1;
                if c >= max {
                    assert(refused(self.view(), ip) =~= self.view());
                    return false;
                }
                self.set_count(i, ip, c + 1);
                true
            },
            None => {
                if max == 0 {
                    self.add_entry(ip, 0);
                    return false;
                }
                self.add_entry(ip, 1);
                true
            },
        }
    }

    /// Ends one download of `ip`: its count goes down (not below 0), and a
    /// client left at 0 loses its entry; nothing happens when it has none.
    pub fn release(&mut self, ip: IpKey)
        requires
            old(self).wf(),
        ensures
            final(self).wf(),
            final(self).view() == released(old(self).view(), ip),
    {
        match self.find(ip) {
            Some(i) => {
                let c = self.entries[i].1;
                if c > 1 {
                    self.set_count(i, ip, c - 1);
                } else {
                    self.remove_entry(i, ip);
                }
            },
            None => {},
        }
    }
}

/// The number of downloads `ip` runs in the table `m` (0 without an entry).
pub open spec fn count_of(m: Map<IpKey, nat>, ip: IpKey) -> nat {
    if m.contains_key(ip) {
        m[ip]
    } else {
        0
    }
}

/// The table after `ip` starts one more download.
pub open spec fn acquired(m: Map<IpKey, nat>, ip: IpKey) -> Map<IpKey, nat> {
    m.insert(ip, count_of(m, ip) + 1)
}

/// The table after `ip` was refused a start: it has an entry, unchanged if
/// it had one, else of 0.
pub open spec fn refused(m: Map<IpKey, nat>, ip: IpKey) -> Map<IpKey, nat> {
    m.insert(ip, count_of(m, ip))
}

/// The table after `ip` ends one download: its count goes down (not below
/// 0), and a client left at 0 loses its entry.
pub open spec fn released(m: Map<IpKey, nat>, ip: IpKey) -> Map<IpKey, nat> {
    if !m.contains_key(ip) {
        m
    } else if m[ip] <= 1 {
        m.remove(ip)
    } else {
        m.insert(ip, (m[ip] - 1) as nat)
    }
}

/// Law: ending a download undoes starting it: every client's count is back
/// to what it was, and the table itself is, unless `ip` had an entry of 0.
pub proof fn lemma_release_undoes_acquire(m: Map<IpKey, nat>, ip: IpKey)
    ensures
        forall|k: IpKey| count_of(#[trigger] released(acquired(m, ip), ip), k) == count_of(m, k),
        (m.contains_key(ip) ==> m[ip] > 0) ==> released(acquired(m, ip), ip) == m,
{
    if m.contains_key(ip) ==> m[ip] > 0 {
        assert(released(acquired(m, ip), ip) =~= m);
    }
}

/// Law: a refused start changes no client's count.
pub proof fn lemma_refusal_keeps_counts(m: Map<IpKey, nat>, ip: IpKey, k: IpKey)
    ensures
        count_of(refused(m, ip), k) == count_of(m, k),
{
}

/// Law: other clients' counts are never touched by one client's downloads.
pub proof fn lemma_clients_independent(m: Map<IpKey, nat>, ip: IpKey, other: IpKey)
    requires
        ip != other,
    ensures
        count_of(acquired(m, ip), other) == count_of(m, other),
        count_of(refused(m, ip), other) == count_of(m, other),
        count_of(released(m, ip), other) == count_of(m, other),
{
}

// ───────────────────────────── admission ─────────────────────────────

/// Why a download request is refused.
#[derive(Clone, Copy, Debug, PartialEq, Eq, Structural)]
pub enum Rejection {
    /// 400: the id is not acceptable.
    InvalidId,
    /// 403: the URL is not on an allowed domain.
    DomainNotAllowed,
    /// 429: the client already runs its share of downloads.
    TooManyDownloads,
    /// 507: the disk is nearly full.
    NoDiskSpace,
}

impl Rejection {
    /// The HTTP status of the refusal.
    pub fn status(&self) -> (r: u16)
        ensures
            r == match *self {
                Rejection::InvalidId => 400u16,
                Rejection::DomainNotAllowed => 403u16,
                Rejection::TooManyDownloads => 429u16,
                Rejection::NoDiskSpace => 507u16,
            },
    {
        match self {
            Rejection::InvalidId => 400,
            Rejection::DomainNotAllowed => 403,
            Rejection::TooManyDownloads => 429,
            Rejection::NoDiskSpace => 507,
        }
    }

    /// The message shown to the user.
    pub fn message(&self) -> (r: String)
        ensures
            r@ == match *self {
                Rejection::InvalidId => INVALID_ID_MSG@,
                Rejection::DomainNotAllowed => UNSUPPORTED_DOMAIN_MSG@,
                Rejection::TooManyDownloads => TOO_MANY_MSG@,
                Rejection::NoDiskSpace => NO_DISK_MSG@,
            },
    {
        match self {
            Rejection::InvalidId => INVALID_ID_MSG.to_string(),
            Rejection::DomainNotAllowed => UNSUPPORTED_DOMAIN_MSG.to_string(),
            Rejection::TooManyDownloads => TOO_MANY_MSG.to_string(),
            Rejection::NoDiskSpace => NO_DISK_MSG.to_string(),
        }
    }
}

/// Enough free space: at least `min_free_mb` MiB, or the free space could not
/// be read (a check that cannot be made does not block downloads).
pub open spec fn space_ok(available_bytes: Option<u64>, min_free_mb: u64) -> bool {
    match available_bytes {
        Some(b) => b >= min_free_mb * 1024 * 1024,
        None => true,
    }
}

/// Whether the free space `available_bytes` (when it could be read) is
/// enough to start a download.
pub fn enough_space(available_bytes: Option<u64>, min_free_mb: u64) -> (r: bool)
    requires
        min_free_mb * 1024 * 1024 <= u64::MAX,
    ensures
        r == space_ok(available_bytes, min_free_mb),
{
    match available_bytes {
        Some(b) => b >= min_free_mb * 1024 * 1024,
        None => true,
    }
}

/// The decision on a download request from client `ip`: refused for a bad
/// id, then for a URL off the allow-list, then when the client already runs
/// `max_per_ip` downloads; an admitted request counts as one more running
/// download of `ip`. Only the refusal for too many downloads touches the
/// table (it leaves `ip` an entry, as `entry(ip).or_insert(0)` does).
pub fn admit_download(
    slots: &mut IpSlots,
    request: &StartDownloadRequest,
    allowed: &Option<Vec<String>>,
    ip: IpKey,
    max_per_ip: usize,
) -> (r: Result<(), Rejection>)
    requires
        old(slots).wf(),
    ensures
        final(slots).wf(),
        r == (if !is_valid_id(request.id@) {
            Err(Rejection::InvalidId)
        } else if !url_permitted(request.url@, allowed_view(*allowed)) {
            Err(Rejection::DomainNotAllowed)
        } else if count_of(old(slots).view(), ip) >= max_per_ip {
            Err(Rejection::TooManyDownloads)
        } else {
            Ok(())
        }),
        final(slots).view() == match r {
            Ok(_) => acquired(old(slots).view(), ip),
            Err(Rejection::TooManyDownloads) => refused(old(slots).view(), ip),
            Err(_) => old(slots).view(),
        },
{
    if !valid_id(request.id.as_str()) {
        return Err(Rejection::InvalidId);
    }
    if !url_allowed(request.url.as_str(), allowed) {
        return Err(Rejection::DomainNotAllowed);
    }
    if !slots.try_acquire(ip, max_per_ip) {
        return Err(Rejection::TooManyDownloads);
    }
    Ok(())
}

/// The disk check made after a request was admitted for `ip`: with too little
/// free space the request is refused and its download given back.
pub fn check_disk_space(
    slots: &mut IpSlots,
    ip: IpKey,
    available_bytes: Option<u64>,
    min_free_mb: u64,
) -> (r: Result<(), Rejection>)
    requires
        old(slots).wf(),
        min_free_mb * 1024 * 1024 <= u64::MAX,
    ensures
        final(slots).wf(),
        r == if space_ok(available_bytes, min_free_mb) {
            Ok(())
        } else {
            Err(Rejection::NoDiskSpace)
        },
        final(slots).view() == if r is Ok {
            old(slots).view()
        } else {
            released(old(slots).view(), ip)
        },
{
    if enough_space(available_bytes, min_free_mb) {
        Ok(())
    } else {
        slots.release(ip);
        Err(Rejection::NoDiskSpace)
    }
}

/// Law: an admitted client never runs more than `max_per_ip` downloads.
pub proof fn lemma_admission_respects_limit(m: Map<IpKey, nat>, ip: IpKey, max_per_ip: nat)
    requires
        count_of(m, ip) < max_per_ip,
    ensures
        count_of(acquired(m, ip), ip) <= max_per_ip,
{
}

// ───────────────────────────── retention ─────────────────────────────

/// A download folder whose age is `age_secs` seconds and `age_nanos`
/// nanoseconds has outlived a retention of `retention_minutes` minutes.
pub open spec fn outlived(age_secs: u64, age_nanos: u32, retention_minutes: u64) -> bool {
    age_secs > retention_minutes * 60 || (age_secs == retention_minutes * 60 && age_nanos > 0)
}

/// Whether a download folder of this age is removed by the periodic cleanup
/// (its age is strictly beyond the retention time).
pub fn is_expired(age_secs: u64, age_nanos: u32, retention_minutes: u64) -> (r: bool)
    requires
        retention_minutes * 60 <= u64::MAX,
    ensures
        r == outlived(age_secs, age_nanos, retention_minutes),
{
    let limit = retention_minutes * 60;
    age_secs > limit || (age_secs == limit && age_nanos > 0)
}

/// Law: a folder that has outlived the retention time stays outlived as it
/// gets older.
pub proof fn lemma_expiry_is_monotone(s1: u64, n1: u32, s2: u64, n2: u32, retention_minutes: u64)
    requires
        outlived(s1, n1, retention_minutes),
        s1 < s2 || (s1 == s2 && n1 <= n2),
    ensures
        outlived(s2, n2, retention_minutes),
{
}

// ───────────────────────────── rate limiting ─────────────────────────────

/// The per-client rate limit for `rate_limit_per_minute` requests a minute
/// (read as at least 1): one request is restored every `period` seconds
/// (at least 1), and up to `burst` requests (the rate, cut to 32 bits) may
/// come at once.
pub open spec fn rate_limit(rate_limit_per_minute: u64) -> (int, int) {
    let rpm: int = if rate_limit_per_minute < 1 { 1 } else { rate_limit_per_minute as int };
    let period: int = 60int / rpm;
    (if period < 1 { 1 } else { period }, rpm % 0x1_0000_0000)
}

/// The replenish period (seconds) and burst size of the per-client rate
/// limit on the format and download routes.
pub fn rate_limit_params(rate_limit_per_minute: u64) -> (r: (u64, u32))
    ensures
        r.0 == rate_limit(rate_limit_per_minute).0,
        r.1 == rate_limit(rate_limit_per_minute).1,
{
    let rpm: u64 = if rate_limit_per_minute < 1 {
        1
    } else {
        rate_limit_per_minute
    };
    let period: u64 = 60 / rpm;
    let period: u64 = if period < 1 {
        1
    } else {
        period
    };
    (period, (rpm % 0x1_0000_0000) as u32)
}

} // verus!
