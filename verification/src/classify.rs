//! Turning yt-dlp's stderr into the one message the user sees, and deciding
//! whether a failure is worth another attempt.
use vstd::prelude::*;
use crate::text::{
    char_views, chars_of, contains_sub, copy_chars, find_sub, has_sub, is_first_occurrence, join,
    join_chars, lemma_first_occurrence_chosen, matches_at, occurs_at, string_of, suffix_from, trim, trim_chars,
    views,
};

verus! {

broadcast use vstd::string::group_string_axioms;

/// Internal marker put in the collected stderr lines when a download stalls.
pub const STALL_MARKER: &'static str = "MPTUBE_STALL_TIMEOUT";

pub const MSG_STALLED: &'static str = "Download travado (sem progresso) — tentando novamente";
pub const MSG_FORBIDDEN: &'static str = "Acesso negado (403) — importe um arquivo de cookies atualizado";
pub const MSG_LOGIN: &'static str = "Conteúdo requer login — exporte os cookies após fazer login e importe aqui";
pub const MSG_RATE_LIMIT: &'static str = "Rate limit (429) — aguarde alguns minutos e tente novamente";
pub const MSG_PRIVATE: &'static str = "Vídeo privado — não é possível baixar";
pub const MSG_GEO: &'static str = "Conteúdo bloqueado na sua região";
pub const MSG_REMOVED: &'static str = "Conteúdo removido ou indisponível";
pub const MSG_LIVE_ENDED: &'static str = "A transmissão ao vivo já terminou e não está mais disponível";
pub const MSG_UNAVAILABLE: &'static str = "Vídeo indisponível — verifique se o link ainda é válido";
pub const MSG_UNSUPPORTED_URL: &'static str = "URL não suportada — verifique o link";
pub const MSG_NO_FFMPEG: &'static str = "ffmpeg não encontrado — reinstale o mptube para restaurar os binários";
pub const MSG_BAD_COOKIES: &'static str = "Arquivo de cookies inválido ou expirado — exporte novamente";
pub const MSG_GENERIC: &'static str = "Download falhou — verifique a URL e tente novamente";

// ───────────────────────────── specifications ─────────────────────────────

/// A stderr line that reports a real error (yt-dlp prefixes them with `ERROR:`).
pub open spec fn is_error_line(l: Seq<char>) -> bool {
    has_sub(l, "ERROR:"@) || has_sub(l, "error:"@)
}

/// The error lines among `lines`, in order.
pub open spec fn error_lines(lines: Seq<Seq<char>>) -> Seq<Seq<char>>
    decreases lines.len(),
{
    if lines.len() == 0 {
        Seq::empty()
    } else {
        let r = error_lines(lines.drop_last());
        if is_error_line(lines.last()) {
            r.push(lines.last())
        } else {
            r
        }
    }
}

/// The text that is searched for known causes: the error lines joined by
/// spaces, or all lines joined by spaces when there is no error line.
pub open spec fn diagnostic(lines: Seq<Seq<char>>) -> Seq<char> {
    if error_lines(lines).len() > 0 {
        join(error_lines(lines), " "@)
    } else {
        join(lines, " "@)
    }
}

/// Some line of `lines` contains `pat`.
pub open spec fn some_line_has(lines: Seq<Seq<char>>, pat: Seq<char>) -> bool {
    exists|i: int| 0 <= i < lines.len() && has_sub(#[trigger] lines[i], pat)
}

/// `msg` without its `ERROR: [extractor] id: ` prefix: for a line that starts
/// with `ERROR: [`, what follows the first `": "` after the first `]`; any
/// other line, or one with no such `": "`, is kept whole.
pub open spec fn strip_location(msg: Seq<char>) -> Seq<char> {
    if occurs_at(msg, "ERROR: ["@, 0) && has_sub(msg, "]"@) {
        let b = choose|b: int| is_first_occurrence(msg, "]"@, b);
        let rest = msg.subrange(b + "]"@.len(), msg.len() as int);
        if has_sub(rest, ": "@) {
            let p = choose|p: int| is_first_occurrence(rest, ": "@, p);
            rest.subrange(p + ": "@.len(), rest.len() as int)
        } else {
            msg
        }
    } else {
        msg
    }
}

/// The message shown for a failed run whose stderr lines are `lines`.
pub open spec fn error_message(lines: Seq<Seq<char>>) -> Seq<char> {
    let d = diagnostic(lines);
    if some_line_has(lines, STALL_MARKER@) {
        MSG_STALLED@
    } else if has_sub(d, "HTTP Error 403"@) || (has_sub(d, "returned non-zero exit status"@)
        && has_sub(d, "403"@)) {
        MSG_FORBIDDEN@
    } else if has_sub(d, "Sign in to confirm"@) || has_sub(d, "age-restricted"@) || has_sub(
        d,
        "members-only"@,
    ) {
        MSG_LOGIN@
    } else if has_sub(d, "HTTP Error 429"@) || has_sub(d, "Too Many Requests"@) {
        MSG_RATE_LIMIT@
    } else if has_sub(d, "Private video"@) {
        MSG_PRIVATE@
    } else if has_sub(d, "This video is not available in your country"@) || has_sub(
        d,
        "geo-restricted"@,
    ) {
        MSG_GEO@
    } else if has_sub(d, "This video has been removed"@) || has_sub(d, "no longer available"@) {
        MSG_REMOVED@
    } else if has_sub(d, "This live event has ended"@) {
        MSG_LIVE_ENDED@
    } else if has_sub(d, "Video unavailable"@) {
        MSG_UNAVAILABLE@
    } else if has_sub(d, "Unsupported URL"@) || has_sub(d, "Unable to extract"@) {
        MSG_UNSUPPORTED_URL@
    } else if has_sub(d, "ffmpeg"@) && (has_sub(d, "not found"@) || has_sub(d, "No such file"@)) {
        MSG_NO_FFMPEG@
    } else if has_sub(d, "Unable to download"@) && has_sub(d, "Cookies"@) {
        MSG_BAD_COOKIES@
    } else if error_lines(lines).len() > 0 {
        strip_location(trim(error_lines(lines)[0]))
    } else {
        MSG_GENERIC@
    }
}

/// A failure that is likely to go away on its own: a stall or a rate limit.
pub open spec fn transient(lines: Seq<Seq<char>>) -> bool {
    let joined = join(lines, " "@);
    has_sub(joined, STALL_MARKER@) || has_sub(joined, "HTTP Error 429"@) || has_sub(
        joined,
        "Too Many Requests"@,
    )
}

// ───────────────────────────── implementation ─────────────────────────────

/// The characters of each line.
pub fn lines_chars(lines: &[String]) -> (out: Vec<Vec<char>>)
    ensures
        char_views(out@) == views(lines@),
{
    let n = lines.len();
    let mut out: Vec<Vec<char>> = Vec::new();
    for i in 0..n
        invariant
            n == lines@.len(),
            char_views(out@) == views(lines@).take(i as int),
    {
        let c = chars_of(lines[i].as_str());
        let ghost prev = out@;
        out.push(c);
        assert(char_views(out@) =~= char_views(prev).push(lines@[i as int]@));
        assert(views(lines@).take(i + 1) =~= views(lines@).take(i as int).push(lines@[i as int]@));
    }
    assert(views(lines@).take(n as int) =~= views(lines@));
    out
}

fn error_lines_of(lines: &Vec<Vec<char>>) -> (out: Vec<Vec<char>>)
    ensures
        char_views(out@) == error_lines(char_views(lines@)),
{
    let n = lines.len();
    let err_upper = chars_of("ERROR:");
    let err_lower = chars_of("error:");
    let ghost dv = char_views(lines@);
    let mut out: Vec<Vec<char>> = Vec::new();
    for i in 0..n
        invariant
            n == lines@.len(),
            dv == char_views(lines@),
            err_upper@ == "ERROR:"@,
            err_lower@ == "error:"@,
            char_views(out@) == error_lines(dv.take(i as int)),
    {
        proof {
            assert(dv.take(i + 1).drop_last() =~= dv.take(i as int));
            assert(dv.take(i + 1).last() == lines@[i as int]@);
        }
        let line = &lines[i];
        if contains_sub(line.as_slice(), err_upper.as_slice()) || contains_sub(
            line.as_slice(),
            err_lower.as_slice(),
        ) {
            out.push(line.clone());
            assert(char_views(out@) =~= error_lines(dv.take(i as int)).push(line@));
        }
    }
    assert(dv.take(n as int) =~= dv);
    out
}

fn some_line_contains(lines: &Vec<Vec<char>>, pat: &[char]) -> (r: bool)
    ensures
        r == some_line_has(char_views(lines@), pat@),
{
    let n = lines.len();
    let ghost dv = char_views(lines@);
    for i in 0..n
        invariant
            n == lines@.len(),
            dv == char_views(lines@),
            forall|j: int| 0 <= j < i ==> !has_sub(#[trigger] dv[j], pat@),
    {
        if contains_sub(lines[i].as_slice(), pat) {
            assert(has_sub(dv[i as int], pat@));
            return true;
        }
    }
    false
}

fn has(d: &[char], pat: &str) -> (r: bool)
    ensures
        r == has_sub(d@, pat@),
{
    let p = chars_of(pat);
    contains_sub(d, p.as_slice())
}

fn strip_location_of(msg: &[char]) -> (r: Vec<char>)
    ensures
        r@ == strip_location(msg@),
{
    let prefix = chars_of("ERROR: [");
    if !matches_at(msg, prefix.as_slice(), 0) {
        return copy_chars(msg);
    }
    let bracket = chars_of("]");
    let sep = chars_of(": ");
    match find_sub(msg, bracket.as_slice()) {
        Some(b) => {
            proof {
                lemma_first_occurrence_chosen(msg@, "]"@, b as int);
                assert(occurs_at(msg@, bracket@, b as int));
                assert(msg@.len() == msg.len());
            }
            let rest = suffix_from(msg, b + bracket.len());
            match find_sub(rest.as_slice(), sep.as_slice()) {
                Some(p) => {
                    proof {
                        lemma_first_occurrence_chosen(rest@, ": "@, p as int);
                        assert(occurs_at(rest@, sep@, p as int));
                        assert(rest@.len() == rest.len());
                    }
                    suffix_from(rest.as_slice(), p + sep.len())
                },
                None => copy_chars(msg),
            }
        },
        None => copy_chars(msg),
    }
}

/// The message shown to the user for a failed download, from yt-dlp's stderr
/// lines: a known cause when one is recognised, else the first error line
/// without its location prefix, else a generic message.
pub fn classify_error(stderr_lines: &[String]) -> (msg: String)
    ensures
        msg@ == error_message(views(stderr_lines@)),
{
    let lines = lines_chars(stderr_lines);
    let ghost ls = views(stderr_lines@);
    let stall = chars_of(STALL_MARKER);
    if some_line_contains(&lines, stall.as_slice()) {
        return MSG_STALLED.to_string();
    }
    let errors = error_lines_of(&lines);
    let space = chars_of(" ");
    let d = if errors.len() > 0 {
        join_chars(&errors, space.as_slice())
    } else {
        join_chars(&lines, space.as_slice())
    };
    assert(d@ == diagnostic(ls));
    let d = d.as_slice();
    if has(d, "HTTP Error 403") || (has(d, "returned non-zero exit status") && has(d, "403")) {
        return MSG_FORBIDDEN.to_string();
    }
    if has(d, "Sign in to confirm") || has(d, "age-restricted") || has(d, "members-only") {
        return MSG_LOGIN.to_string();
    }
    if has(d, "HTTP Error 429") || has(d, "Too Many Requests") {
        return MSG_RATE_LIMIT.to_string();
    }
    if has(d, "Private video") {
        return MSG_PRIVATE.to_string();
    }
    if has(d, "This video is not available in your country") || has(d, "geo-restricted") {
        return MSG_GEO.to_string();
    }
    if has(d, "This video has been removed") || has(d, "no longer available") {
        return MSG_REMOVED.to_string();
    }
    if has(d, "This live event has ended") {
        return MSG_LIVE_ENDED.to_string();
    }
    if has(d, "Video unavailable") {
        return MSG_UNAVAILABLE.to_string();
    }
    if has(d, "Unsupported URL") || has(d, "Unable to extract") {
        return MSG_UNSUPPORTED_URL.to_string();
    }
    if has(d, "ffmpeg") && (has(d, "not found") || has(d, "No such file")) {
        return MSG_NO_FFMPEG.to_string();
    }
    if has(d, "Unable to download") && has(d, "Cookies") {
        return MSG_BAD_COOKIES.to_string();
    }
    if errors.len() > 0 {
        let first = trim_chars(errors[0].as_slice());
        let stripped = strip_location_of(first.as_slice());
        return string_of(stripped.as_slice());
    }
    MSG_GENERIC.to_string()
}

/// Whether a failure with these stderr lines is transient (a stall or a rate
/// limit), so that another attempt is worth making.
pub fn is_transient_error(stderr_lines: &[String]) -> (r: bool)
    ensures
        r == transient(views(stderr_lines@)),
{
    let lines = lines_chars(stderr_lines);
    let space = chars_of(" ");
    let joined = join_chars(&lines, space.as_slice());
    let j = joined.as_slice();
    has(j, STALL_MARKER) || has(j, "HTTP Error 429") || has(j, "Too Many Requests")
}

/// Law: a run that stalled is reported as a stall, whatever else its stderr
/// holds.
pub proof fn lemma_stall_reported_as_stall(lines: Seq<Seq<char>>)
    requires
        some_line_has(lines, STALL_MARKER@),
    ensures
        error_message(lines) == MSG_STALLED@,
{
}

/// Law: the stderr of a stalled run (the stall marker alone) is a transient
/// failure, so a stalled download is tried again while attempts are left.
pub proof fn lemma_stall_is_transient()
    ensures
        transient(seq![STALL_MARKER@]),
{
    let m = STALL_MARKER@;
    assert(join(seq![m], " "@) == m);
    assert(m.subrange(0, m.len() as int) =~= m);
    assert(occurs_at(m, m, 0));
}

/// Law: content reported removed (`"This video has been removed"` or `"no
/// longer available"`) gives the removed-content message whenever no stall and
/// none of the causes checked before it (403, login, 429, private video,
/// geo-blocking) is found — even when the text also says `"Video
/// unavailable"`.
pub proof fn lemma_removed_content_message(lines: Seq<Seq<char>>)
    requires
        !some_line_has(lines, STALL_MARKER@),
        !has_sub(diagnostic(lines), "HTTP Error 403"@),
        !(has_sub(diagnostic(lines), "returned non-zero exit status"@) && has_sub(
            diagnostic(lines),
            "403"@,
        )),
        !has_sub(diagnostic(lines), "Sign in to confirm"@),
        !has_sub(diagnostic(lines), "age-restricted"@),
        !has_sub(diagnostic(lines), "members-only"@),
        !has_sub(diagnostic(lines), "HTTP Error 429"@),
        !has_sub(diagnostic(lines), "Too Many Requests"@),
        !has_sub(diagnostic(lines), "Private video"@),
        !has_sub(diagnostic(lines), "This video is not available in your country"@),
        !has_sub(diagnostic(lines), "geo-restricted"@),
        has_sub(diagnostic(lines), "This video has been removed"@) || has_sub(
            diagnostic(lines),
            "no longer available"@,
        ),
    ensures
        error_message(lines) == MSG_REMOVED@,
{
}

/// Law: a failure is transient exactly when its stderr, joined by spaces,
/// holds the stall marker, `"HTTP Error 429"` or `"Too Many Requests"`; any
/// other failure (an unavailable video, a 403, ...) is not.
pub proof fn lemma_transient_causes(lines: Seq<Seq<char>>)
    ensures
        transient(lines) <==> (has_sub(join(lines, " "@), STALL_MARKER@) || has_sub(
            join(lines, " "@),
            "HTTP Error 429"@,
        ) || has_sub(join(lines, " "@), "Too Many Requests"@)),
{
}

} // verus!
