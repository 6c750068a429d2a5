//! Reading yt-dlp's output while it runs: progress lines on stdout, the path
//! of the finished file, and the stderr lines kept for the error message.
use vstd::prelude::*;
use crate::classify::STALL_MARKER;
use crate::text::{
    char_views, chars_of, contains_char, contains_sub, ends_with, ends_with_chars, has_char, has_sub,
    string_of, views, words, words_of,
};

verus! {

broadcast use vstd::string::group_string_axioms;

/// The fields of a `[download]` progress line: the percentage as written
/// before its `%` signs (yt-dlp writes a decimal number there), the speed
/// (a word ending in `/s`) and the ETA (a word with a `:`).
pub struct ProgressFields {
    pub percent: String,
    pub speed: Option<String>,
    pub eta: Option<String>,
}

/// `w` without its trailing `%` signs (`str::trim_end_matches('%')`).
pub open spec fn trim_percent(w: Seq<char>) -> Seq<char>
    decreases w.len(),
{
    if w.len() > 0 && w.last() == '%' {
        trim_percent(w.drop_last())
    } else {
        w
    }
}

/// The fields gathered from the words `ws` of a progress line, in order: each
/// word ending in `%` sets the percentage, each other word ending in `/s` the
/// speed, and the first other word with a `:` the ETA (only when the line
/// mentions `ETA`).
pub open spec fn scan_words(ws: Seq<Seq<char>>, has_eta: bool) -> (
    Option<Seq<char>>,
    Option<Seq<char>>,
    Option<Seq<char>>,
)
    decreases ws.len(),
{
    if ws.len() == 0 {
        (None, None, None)
    } else {
        let prev = scan_words(ws.drop_last(), has_eta);
        let w = ws.last();
        if ends_with(w, seq!['%']) {
            (Some(trim_percent(w)), prev.1, prev.2)
        } else if ends_with(w, "/s"@) {
            (prev.0, Some(w), prev.2)
        } else if has_eta && has_char(w, ':') && prev.2 is None {
            (prev.0, prev.1, Some(w))
        } else {
            prev
        }
    }
}

/// The view of an optional string.
pub open spec fn opt_view(s: Option<String>) -> Option<Seq<char>> {
    match s {
        Some(x) => Some(x@),
        None => None,
    }
}

/// The progress read from a stdout line: none unless the line holds
/// `[download]` and a word ending in `%`.
pub open spec fn progress_of(line: Seq<char>) -> Option<(Seq<char>, Option<Seq<char>>, Option<Seq<char>>)> {
    if !has_sub(line, "[download]"@) {
        None
    } else {
        let r = scan_words(words(line), has_sub(line, "ETA"@));
        match r.0 {
            Some(p) => Some((p, r.1, r.2)),
            None => None,
        }
    }
}

/// The view of a `ProgressFields`.
pub open spec fn fields_view(f: ProgressFields) -> (Seq<char>, Option<Seq<char>>, Option<Seq<char>>) {
    (f.percent@, opt_view(f.speed), opt_view(f.eta))
}

fn trim_percent_exec(w: &Vec<char>) -> (r: Vec<char>)
    ensures
        r@ == trim_percent(w@),
{
    let mut out = crate::text::copy_chars(w.as_slice());
    while out.len() > 0 && out[out.len() - 1] == '%'
        invariant
            trim_percent(w@) == trim_percent(out@),
        decreases out@.len(),
    {
        out.pop();
    }
    out
}

/// The progress fields of a stdout line of yt-dlp (the text part of
/// `parse_progress`; the percentage is handed back as written, for the caller
/// to read as a number).
pub fn progress_fields(line: &str) -> (r: Option<ProgressFields>)
    ensures
        match r {
            Some(f) => progress_of(line@) == Some(fields_view(f)),
            None => progress_of(line@) is None,
        },
{
    let l = chars_of(line);
    let marker = chars_of("[download]");
    if !contains_sub(l.as_slice(), marker.as_slice()) {
        return None;
    }
    let eta_word = chars_of("ETA");
    let has_eta = contains_sub(l.as_slice(), eta_word.as_slice());
    let ws = words_of(l.as_slice());
    let per_sec = chars_of("/s");
    let ghost wv = char_views(ws@);
    let mut percent: Option<Vec<char>> = None;
    let mut speed: Option<Vec<char>> = None;
    let mut eta: Option<Vec<char>> = None;
    let n = ws.len();
    for i in 0..n
        invariant
            n == ws@.len(),
            wv == char_views(ws@),
            per_sec@ == "/s"@,
            scan_words(wv.take(i as int), has_eta) == (
                match percent {
                    Some(p) => Some(p@),
                    None => None,
                },
                match speed {
                    Some(p) => Some(p@),
                    None => None,
                },
                match eta {
                    Some(p) => Some(p@),
                    None => None,
                },
            ),
    {
        let w = &ws[i];
        proof {
            assert(wv.take(i + 1).drop_last() =~= wv.take(i as int));
            assert(wv.take(i + 1).last() == w@);
        }
        let pct = vec!['%'];
        assert(pct@ =~= seq!['%']);
        if ends_with_chars(w.as_slice(), pct.as_slice()) {
            percent = Some(trim_percent_exec(w));
        } else if ends_with_chars(w.as_slice(), per_sec.as_slice()) {
            speed = Some(crate::text::copy_chars(w.as_slice()));
        } else if has_eta && contains_char(w.as_slice(), ':') && eta.is_none() {
            eta = Some(crate::text::copy_chars(w.as_slice()));
        }
    }
    assert(wv.take(n as int) =~= wv);
    match percent {
        None => None,
        Some(p) => Some(
            ProgressFields {
                percent: string_of(p.as_slice()),
                speed: match speed {
                    Some(s) => Some(string_of(s.as_slice())),
                    None => None,
                },
                eta: match eta {
                    Some(e) => Some(string_of(e.as_slice())),
                    None => None,
                },
            },
        ),
    }
}

/// A stdout line that names the finished file: not empty and not a `[...]`
/// status line (yt-dlp prints the path after moving the file).
pub open spec fn is_path_line(line: Seq<char>) -> bool {
    line.len() > 0 && line[0] != '['
}

/// Law: every non-empty stdout line that does not start with `[` names the
/// finished file, whatever other characters (spaces, accents, brackets) it
/// holds; and no line that is empty or starts with `[` does.
pub proof fn lemma_path_lines(line: Seq<char>)
    ensures
        is_path_line(line) <==> (line.len() > 0 && line[0] != '['),
{
}

/// What has been read so far of one run of yt-dlp.
pub struct RunLog {
    /// The last stdout line that named a file.
    pub last_file_path: Option<String>,
    /// The non-empty stderr lines, in order.
    pub stderr_lines: Vec<String>,
}

/// How a run ended: whether it succeeded, its stderr lines, and the path of
/// the file it produced.
pub struct RunOutcome {
    pub success: bool,
    pub stderr_lines: Vec<String>,
    pub file_path: Option<String>,
}

impl RunLog {
    /// Nothing read yet.
    pub fn new() -> (r: RunLog)
        ensures
            r.last_file_path is None,
            r.stderr_lines@.len() == 0,
    {
        RunLog { last_file_path: None, stderr_lines: Vec::new() }
    }

    /// Reads one stdout line: a line that names a file is remembered as the
    /// output path; any other line may report progress, which is returned.
    pub fn on_stdout_line(&mut self, line: String) -> (r: Option<ProgressFields>)
        ensures
            final(self).stderr_lines@ == old(self).stderr_lines@,
            line@.len() > 0 && line@[0] != '[' ==> opt_view(final(self).last_file_path) == Some(
                line@,
            ),
            line@.len() == 0 || line@[0] == '[' ==> final(self).last_file_path == old(
                self,
            ).last_file_path,
            is_path_line(line@) ==> r is None && opt_view(final(self).last_file_path) == Some(
                line@,
            ),
            !is_path_line(line@) ==> final(self).last_file_path == old(self).last_file_path && match r {
                Some(f) => progress_of(line@) == Some(fields_view(f)),
                None => progress_of(line@) is None,
            },
    {
        let l = chars_of(line.as_str());
        if l.len() > 0 && l[0] != '[' {
            self.last_file_path = Some(line);
            None
        } else {
            progress_fields(line.as_str())
        }
    }

    /// Reads one stderr line; empty lines are dropped.
    pub fn on_stderr_line(&mut self, line: String)
        ensures
            final(self).last_file_path == old(self).last_file_path,
            final(self).stderr_lines@ == if line@.len() > 0 {
                old(self).stderr_lines@.push(line)
            } else {
                old(self).stderr_lines@
            },
    {
        let l = chars_of(line.as_str());
        if l.len() > 0 {
            self.stderr_lines.push(line);
        }
    }

    /// The outcome once yt-dlp has exited with status `success`.
    pub fn finish(self, success: bool) -> (r: RunOutcome)
        ensures
            r.success == success,
            r.stderr_lines@ == self.stderr_lines@,
            r.file_path == self.last_file_path,
    {
        RunOutcome { success, stderr_lines: self.stderr_lines, file_path: self.last_file_path }
    }
}

/// The outcome of a run that printed nothing for too long and was killed:
/// a failure whose only stderr line is the stall marker.
pub fn stall_outcome() -> (r: RunOutcome)
    ensures
        !r.success,
        views(r.stderr_lines@) == seq![STALL_MARKER@],
        r.file_path is None,
{
    let mut lines: Vec<String> = Vec::new();
    lines.push(STALL_MARKER.to_string());
    assert(views(lines@) =~= seq![STALL_MARKER@]);
    RunOutcome { success: false, stderr_lines: lines, file_path: None }
}

} // verus!
