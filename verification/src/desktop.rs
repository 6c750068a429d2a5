//! Where the desktop app finds the yt-dlp and ffmpeg binaries bundled with it.
use vstd::prelude::*;
use crate::text::{chars_eq, chars_of, extend_chars, string_of, views};

verus! {

broadcast use vstd::string::group_string_axioms;

/// The directory a bundled binary is looked for in.
#[derive(Clone, Copy, Debug, PartialEq, Eq, Structural)]
pub enum SidecarBase {
    /// The parent of the resource directory (the executable's directory).
    ResourceParent,
    /// The resource directory itself.
    Resource,
}

/// A place where a bundled binary may be: a path relative to a base directory.
pub struct SidecarCandidate {
    pub base: SidecarBase,
    pub relative: Vec<String>,
}

/// The places looked at for the binary `name`, in order: `MacOS/<name>` and
/// `<name>.exe` next to the resource directory (macOS and Windows bundles),
/// then `<name>` and `<name>.exe` inside it.
pub open spec fn sidecar_places(name: Seq<char>) -> Seq<(SidecarBase, Seq<Seq<char>>)> {
    seq![
        (SidecarBase::ResourceParent, seq!["MacOS"@, name]),
        (SidecarBase::ResourceParent, seq![name + ".exe"@]),
        (SidecarBase::Resource, seq![name]),
        (SidecarBase::Resource, seq![name + ".exe"@]),
    ]
}

/// The view of a candidate.
pub open spec fn candidate_view(c: SidecarCandidate) -> (SidecarBase, Seq<Seq<char>>) {
    (c.base, views(c.relative@))
}

fn exe_name(name: &str) -> (r: String)
    ensures
        r@ == name@ + ".exe"@,
{
    let mut c = chars_of(name);
    extend_chars(&mut c, chars_of(".exe").as_slice());
    string_of(c.as_slice())
}

/// The places where the desktop app looks for a bundled binary, in order.
pub fn sidecar_candidates(name: &str) -> (r: Vec<SidecarCandidate>)
    ensures
        r@.len() == 4,
        forall|i: int| 0 <= i < 4 ==> candidate_view(#[trigger] r@[i]) == sidecar_places(name@)[i],
{
    let mut out: Vec<SidecarCandidate> = Vec::new();
    let mut macos: Vec<String> = Vec::new();
    macos.push("MacOS".to_string());
    macos.push(name.to_string());
    assert(views(macos@) =~= seq!["MacOS"@, name@]);
    out.push(SidecarCandidate { base: SidecarBase::ResourceParent, relative: macos });
    let mut win: Vec<String> = Vec::new();
    win.push(exe_name(name));
    assert(views(win@) =~= seq![name@ + ".exe"@]);
    out.push(SidecarCandidate { base: SidecarBase::ResourceParent, relative: win });
    let mut res: Vec<String> = Vec::new();
    res.push(name.to_string());
    assert(views(res@) =~= seq![name@]);
    out.push(SidecarCandidate { base: SidecarBase::Resource, relative: res });
    let mut res_exe: Vec<String> = Vec::new();
    res_exe.push(exe_name(name));
    assert(views(res_exe@) =~= seq![name@ + ".exe"@]);
    out.push(SidecarCandidate { base: SidecarBase::Resource, relative: res_exe });
    out
}

/// The place used for a bundled binary: the first of the candidates (in the
/// order of `sidecar_candidates`) that exists, given whether each exists;
/// none when no candidate exists (the `PATH` fallback is then used).
pub fn pick_sidecar(exists: &[bool]) -> (r: Option<usize>)
    ensures
        match r {
            Some(i) => i < exists@.len() && exists@[i as int] && forall|j: int|
                0 <= j < i ==> !exists@[j],
            None => forall|j: int| 0 <= j < exists@.len() ==> !exists@[j],
        },
{
    let n = exists.len();
    for i in 0..n
        invariant
            n == exists@.len(),
            forall|j: int| 0 <= j < i ==> !exists@[j],
    {
        if exists[i] {
            return Some(i);
        }
    }
    None
}

/// The name run from `PATH` when the binary is not bundled: `<name>.exe` on
/// Windows, `<name>` elsewhere.
pub fn path_fallback(name: &str, windows: bool) -> (r: String)
    ensures
        r@ == if windows {
            name@ + ".exe"@
        } else {
            name@
        },
{
    if windows {
        exe_name(name)
    } else {
        name.to_string()
    }
}

/// The ffmpeg to hand to yt-dlp: the resolved path when it is a bundled one;
/// none when resolution fell back to the bare name (yt-dlp then uses the
/// ffmpeg on `PATH`).
pub fn bundled_ffmpeg(candidate: String) -> (r: Option<String>)
    ensures
        r == if candidate@ == "ffmpeg"@ || candidate@ == "ffmpeg.exe"@ {
            None
        } else {
            Some(candidate)
        },
{
    if crate::command::str_eq(candidate.as_str(), "ffmpeg") || crate::command::str_eq(
        candidate.as_str(),
        "ffmpeg.exe",
    ) {
        None
    } else {
        Some(candidate)
    }
}

} // verus!
