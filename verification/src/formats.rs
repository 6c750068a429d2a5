//! Choosing the formats offered to the user from yt-dlp's list of formats:
//! one video entry per resolution (the one with the highest total bitrate),
//! video entries listed from the highest resolution down, audio-only entries
//! listed from the highest audio bitrate down, each with a readable label.
use vstd::prelude::*;
use crate::classify::{classify_error, error_message};
use crate::text::{
    char_views, chars_eq, chars_of, decimal, extend_chars, lines, lines_of, push_decimal, string_of,
    to_uppercase, uppercase, views,
};

verus! {

broadcast use vstd::string::group_string_axioms;

/// The rank of the bitrate 0.
pub const ZERO_RANK: u64 = 0x8000_0000_0000_0000;

/// A bitrate of yt-dlp's JSON (a floating-point number of kbit/s), held as what
/// the selection reads of it: `rank` orders bitrates as the numbers are ordered
/// (equal numbers have equal ranks, and `ZERO_RANK` is the rank of 0, so a
/// rank above `ZERO_RANK` means a positive bitrate); `text` is the number
/// rounded to a whole, as labels show it.
pub struct Rate {
    pub rank: u64,
    pub text: String,
}

/// One entry of the `formats` list of yt-dlp's JSON, as the selection reads it.
/// Absent strings are read as `""`, absent codecs as `"none"`, absent bitrates
/// as 0; `fps_text` is the frame rate rounded to a whole, when there is one.
pub struct FormatRecord {
    pub format_id: String,
    pub ext: String,
    pub vcodec: String,
    pub acodec: String,
    pub width: Option<u64>,
    pub height: Option<u64>,
    pub fps_text: Option<String>,
    pub tbr: Rate,
    pub abr: Rate,
}

/// A video entry offered to the user: `source` is its position in the list of
/// formats, `has_audio` whether it carries sound too.
pub struct VideoChoice {
    pub source: usize,
    pub has_audio: bool,
    pub label: String,
}

/// An audio-only entry offered to the user: `source` is its position in the
/// list of formats; its bitrate is the audio bitrate when `uses_abr`, else the
/// total bitrate.
pub struct AudioChoice {
    pub source: usize,
    pub uses_abr: bool,
    pub label: String,
}

/// The entries offered to the user, in the order shown.
pub struct FormatLists {
    pub video: Vec<VideoChoice>,
    pub audio: Vec<AudioChoice>,
}

// ───────────────────────────── specifications ─────────────────────────────

/// The format has a video stream.
pub open spec fn has_video(f: FormatRecord) -> bool {
    f.vcodec@ != "none"@ && f.vcodec@.len() > 0
}

/// The format has an audio stream.
pub open spec fn has_audio(f: FormatRecord) -> bool {
    f.acodec@ != "none"@ && f.acodec@.len() > 0
}

/// An optional number, absent read as 0 (`unwrap_or(0)`).
pub open spec fn or_zero(v: Option<u64>) -> u64 {
    match v {
        Some(x) => x,
        None => 0,
    }
}

/// The resolution by which video entries are told apart (absent sides read as 0).
pub open spec fn resolution(f: FormatRecord) -> (u64, u64) {
    (or_zero(f.width), or_zero(f.height))
}

/// Slot `j` holds a format of resolution `key`.
pub open spec fn slot_matches(fs: Seq<FormatRecord>, slots: Seq<usize>, key: (u64, u64), j: int) -> bool {
    0 <= j < slots.len() && resolution(fs[slots[j] as int]) == key
}

/// The first slot that holds a format of resolution `key`, or -1.
pub open spec fn slot_of(fs: Seq<FormatRecord>, slots: Seq<usize>, key: (u64, u64)) -> int {
    if exists|j: int| slot_matches(fs, slots, key, j) {
        choose|j: int|
            slot_matches(fs, slots, key, j) && forall|k: int|
                0 <= k < j ==> !slot_matches(fs, slots, key, k)
    } else {
        -1
    }
}

/// The video entries kept among the first `n` formats, in the order in which
/// their resolutions first appear: a format of a new resolution takes a new
/// slot; one of a known resolution replaces the slot's format when its total
/// bitrate is strictly higher.
pub open spec fn video_slots(fs: Seq<FormatRecord>, n: nat) -> Seq<usize>
    decreases n,
{
    if n == 0 {
        Seq::empty()
    } else {
        let prev = video_slots(fs, (n - 1) as nat);
        let f = fs[n - 1];
        if !has_video(f) {
            prev
        } else {
            let j = slot_of(fs, prev, resolution(f));
            if j < 0 {
                prev.push((n - 1) as usize)
            } else if f.tbr.rank > fs[prev[j] as int].tbr.rank {
                prev.update(j, (n - 1) as usize)
            } else {
                prev
            }
        }
    }
}

/// The audio-only formats among the first `n`, in order.
pub open spec fn audio_sources(fs: Seq<FormatRecord>, n: nat) -> Seq<usize>
    decreases n,
{
    if n == 0 {
        Seq::empty()
    } else {
        let prev = audio_sources(fs, (n - 1) as nat);
        if has_audio(fs[n - 1]) && !has_video(fs[n - 1]) {
            prev.push((n - 1) as usize)
        } else {
            prev
        }
    }
}

/// `x` inserted into `s` after every entry whose key is at least `x`'s key.
pub open spec fn insert_desc(x: (usize, u64), s: Seq<(usize, u64)>) -> Seq<(usize, u64)>
    decreases s.len(),
{
    if s.len() == 0 {
        seq![x]
    } else if s[0].1 >= x.1 {
        seq![s[0]] + insert_desc(x, s.drop_first())
    } else {
        seq![x] + s
    }
}

/// The stable sort of `s` by key, highest key first (`slice::sort_by`, which
/// is stable, with the comparison reversed).
pub open spec fn sort_desc(s: Seq<(usize, u64)>) -> Seq<(usize, u64)>
    decreases s.len(),
{
    if s.len() == 0 {
        Seq::empty()
    } else {
        insert_desc(s.last(), sort_desc(s.drop_last()))
    }
}

/// The height by which video entries are ordered (absent: 0).
pub open spec fn height_key(f: FormatRecord) -> u64 {
    or_zero(f.height)
}

/// The bitrate by which audio entries are ordered and labelled: the audio
/// bitrate when it is positive, else the total bitrate.
pub open spec fn audio_rate(f: FormatRecord) -> Rate {
    if f.abr.rank > ZERO_RANK {
        f.abr
    } else {
        f.tbr
    }
}

/// The video entries, as (position, height), in the order shown.
pub open spec fn video_order(fs: Seq<FormatRecord>) -> Seq<(usize, u64)> {
    sort_desc(video_slots(fs, fs.len()).map_values(|i: usize| (i, height_key(fs[i as int]))))
}

/// The audio entries, as (position, bitrate rank), in the order shown.
pub open spec fn audio_order(fs: Seq<FormatRecord>) -> Seq<(usize, u64)> {
    sort_desc(audio_sources(fs, fs.len()).map_values(|i: usize| (i, audio_rate(fs[i as int]).rank)))
}

/// `"{format_id} ({EXT})"`.
pub open spec fn id_label(f: FormatRecord) -> Seq<char> {
    f.format_id@ + " ("@ + uppercase(f.ext@) + ")"@
}

/// The label of a video entry: `"{height}p {fps}fps"`, `"{height}p"`, or
/// `"{format_id} ({EXT})"` when the height is unknown.
pub open spec fn video_label(f: FormatRecord) -> Seq<char> {
    match f.height {
        Some(h) => match f.fps_text {
            Some(t) => decimal(h as nat) + "p "@ + t@ + "fps"@,
            None => decimal(h as nat) + "p"@,
        },
        None => id_label(f),
    }
}

/// The label of an audio entry: `"{bitrate} kbps ({EXT})"` when its bitrate is
/// positive, else `"{format_id} ({EXT})"`.
pub open spec fn audio_label(f: FormatRecord) -> Seq<char> {
    if audio_rate(f).rank > ZERO_RANK {
        audio_rate(f).text@ + " kbps ("@ + uppercase(f.ext@) + ")"@
    } else {
        id_label(f)
    }
}

// ───────────────────────────── sorting ─────────────────────────────

proof fn lemma_insert_desc_at(x: (usize, u64), s: Seq<(usize, u64)>, p: int)
    requires
        0 <= p <= s.len(),
        forall|j: int| 0 <= j < p ==> s[j].1 >= x.1,
        p == s.len() || s[p].1 < x.1,
    ensures
        insert_desc(x, s) == s.take(p).push(x) + s.skip(p),
    decreases p,
{
    if s.len() == 0 {
        assert(s.take(p).push(x) + s.skip(p) =~= seq![x]);
    } else if p == 0 {
        assert(s.take(p).push(x) + s.skip(p) =~= seq![x] + s);
    } else {
        let t = s.drop_first();
        lemma_insert_desc_at(x, t, p - 1);
        assert(s.take(p).push(x) + s.skip(p) =~= seq![s[0]] + (t.take(p - 1).push(x) + t.skip(
            p - 1,
        )));
    }
}

proof fn lemma_insert_desc_contents(x: (usize, u64), s: Seq<(usize, u64)>)
    ensures
        insert_desc(x, s).len() == s.len() + 1,
        forall|k: int|
            0 <= k < insert_desc(x, s).len() ==> #[trigger] insert_desc(x, s)[k] == x || s.contains(
                insert_desc(x, s)[k],
            ),
    decreases s.len(),
{
    if s.len() > 0 && s[0].1 >= x.1 {
        let t = s.drop_first();
        lemma_insert_desc_contents(x, t);
        assert forall|k: int| 0 <= k < insert_desc(x, s).len() implies #[trigger] insert_desc(
            x,
            s,
        )[k] == x || s.contains(insert_desc(x, s)[k]) by {
            if k == 0 {
                assert(s.contains(s[0]));
            } else {
                let e = insert_desc(x, t)[k - 1];
                assert(insert_desc(x, s)[k] == e);
                if e != x {
                    let j = choose|j: int| 0 <= j < t.len() && t[j] == e;
                    assert(s[j + 1] == e);
                }
            }
        }
    } else if s.len() > 0 {
        assert forall|k: int| 0 <= k < insert_desc(x, s).len() implies #[trigger] insert_desc(
            x,
            s,
        )[k] == x || s.contains(insert_desc(x, s)[k]) by {
            if k > 0 {
                assert(insert_desc(x, s)[k] == s[k - 1]);
            }
        }
    }
}

proof fn lemma_sort_desc_contents(s: Seq<(usize, u64)>)
    ensures
        sort_desc(s).len() == s.len(),
        forall|k: int| 0 <= k < sort_desc(s).len() ==> s.contains(#[trigger] sort_desc(s)[k]),
    decreases s.len(),
{
    if s.len() > 0 {
        let r = sort_desc(s.drop_last());
        lemma_sort_desc_contents(s.drop_last());
        lemma_insert_desc_contents(s.last(), r);
        assert forall|k: int| 0 <= k < sort_desc(s).len() implies s.contains(
            #[trigger] sort_desc(s)[k],
        ) by {
            let e = sort_desc(s)[k];
            if e == s.last() {
                assert(s[s.len() - 1] == e);
            } else {
                let j = choose|j: int| 0 <= j < r.len() && r[j] == e;
                assert(s.drop_last().contains(r[j]));
                let m = choose|m: int| 0 <= m < s.drop_last().len() && s.drop_last()[m] == e;
                assert(s[m] == e);
            }
        }
    }
}

fn insert_desc_exec(v: &mut Vec<(usize, u64)>, x: (usize, u64))
    ensures
        final(v)@ == insert_desc(x, old(v)@),
{
    let n = v.len();
    let mut p: usize = 0;
    while p < n && v[p].1 >= x.1
        invariant
            n == v@.len(),
            p <= n,
            forall|j: int| 0 <= j < p ==> v@[j].1 >= x.1,
        decreases n - p,
    {
        p = p + 1;
    }
    proof {
        lemma_insert_desc_at(x, v@, p as int);
    }
    let ghost before = v@;
    v.insert(p, x);
    assert(v@ =~= before.take(p as int).push(x) + before.skip(p as int));
}

/// Stable sort by key, highest key first.
fn sort_desc_exec(v: &Vec<(usize, u64)>) -> (r: Vec<(usize, u64)>)
    ensures
        r@ == sort_desc(v@),
{
    let n = v.len();
    let mut out: Vec<(usize, u64)> = Vec::new();
    for i in 0..n
        invariant
            n == v@.len(),
            out@ == sort_desc(v@.take(i as int)),
    {
        proof {
            assert(v@.take(i + 1).drop_last() =~= v@.take(i as int));
        }
        insert_desc_exec(&mut out, v[i]);
    }
    assert(v@.take(n as int) =~= v@);
    out
}

// ───────────────────────────── selection ─────────────────────────────

fn is_present_codec(codec: &String) -> (r: bool)
    ensures
        r == (codec@ != "none"@ && codec@.len() > 0),
{
    let c = chars_of(codec.as_str());
    let none = chars_of("none");
    !chars_eq(c.as_slice(), none.as_slice()) && c.len() > 0
}

fn opt_or_zero(v: Option<u64>) -> (r: u64)
    ensures
        r == or_zero(v),
{
    match v {
        Some(x) => x,
        None => 0,
    }
}

/// The first slot holding a format of resolution `key`.
fn find_slot(fs: &[FormatRecord], slots: &Vec<usize>, key: (u64, u64)) -> (r: Option<usize>)
    requires
        forall|j: int| 0 <= j < slots@.len() ==> slots@[j] < fs@.len(),
    ensures
        match r {
            Some(j) => j as int == slot_of(fs@, slots@, key) && j < slots@.len(),
            None => slot_of(fs@, slots@, key) == -1,
        },
{
    let n = slots.len();
    for j in 0..n
        invariant
            n == slots@.len(),
            forall|j: int| 0 <= j < slots@.len() ==> slots@[j] < fs@.len(),
            forall|k: int| 0 <= k < j ==> !slot_matches(fs@, slots@, key, k),
    {
        let f = &fs[slots[j]];
        if opt_or_zero(f.width) == key.0 && opt_or_zero(f.height) == key.1 {
            assert(slot_matches(fs@, slots@, key, j as int));
            proof {
                let c = slot_of(fs@, slots@, key);
                assert(slot_matches(fs@, slots@, key, c) && forall|k: int|
                    0 <= k < c ==> !slot_matches(fs@, slots@, key, k));
                if c < j {
                } else if j < c {
                    assert(!slot_matches(fs@, slots@, key, j as int));
                }
            }
            return Some(j);
        }
    }
    None
}

/// One step of `video_slots`: the slots after the format at `i` is seen.
#[verifier::rlimit(30)]
fn video_slots_step(fs: &[FormatRecord], slots: &mut Vec<usize>, i: usize)
    requires
        i < fs@.len(),
        old(slots)@ == video_slots(fs@, i as nat),
        forall|j: int| 0 <= j < old(slots)@.len() ==> old(slots)@[j] < i,
    ensures
        final(slots)@ == video_slots(fs@, (i + 1) as nat),
        forall|j: int| 0 <= j < final(slots)@.len() ==> final(slots)@[j] < i + 1,
{
    let f = &fs[i];
    let ghost next = video_slots(fs@, (i + 1) as nat);
    assert(fs@[i as int] == *f);
    if is_present_codec(&f.vcodec) {
        let key = (opt_or_zero(f.width), opt_or_zero(f.height));
        assert(key == resolution(fs@[i as int]));
        match find_slot(fs, slots, key) {
            None => {
                slots.push(i);
                assert(slots@ == next);
            },
            Some(j) => {
                if f.tbr.rank > fs[slots[j]].tbr.rank {
                    slots.set(j, i);
                }
                assert(slots@ == next);
            },
        }
    } else {
        assert(slots@ == next);
    }
}

fn video_slots_exec(fs: &[FormatRecord]) -> (r: Vec<usize>)
    ensures
        r@ == video_slots(fs@, fs@.len()),
        forall|j: int| 0 <= j < r@.len() ==> r@[j] < fs@.len(),
{
    let n = fs.len();
    let mut slots: Vec<usize> = Vec::new();
    for i in 0..n
        invariant
            n == fs@.len(),
            slots@ == video_slots(fs@, i as nat),
            forall|j: int| 0 <= j < slots@.len() ==> slots@[j] < i,
    {
        video_slots_step(fs, &mut slots, i);
    }
    slots
}

fn audio_sources_exec(fs: &[FormatRecord]) -> (r: Vec<usize>)
    ensures
        r@ == audio_sources(fs@, fs@.len()),
        forall|j: int| 0 <= j < r@.len() ==> r@[j] < fs@.len(),
{
    let n = fs.len();
    let mut out: Vec<usize> = Vec::new();
    for i in 0..n
        invariant
            n == fs@.len(),
            out@ == audio_sources(fs@, i as nat),
            forall|j: int| 0 <= j < out@.len() ==> out@[j] < i,
    {
        let f = &fs[i];
        if is_present_codec(&f.acodec) && !is_present_codec(&f.vcodec) {
            out.push(i);
        }
    }
    out
}

fn id_label_exec(f: &FormatRecord) -> (r: Vec<char>)
    ensures
        r@ == id_label(*f),
{
    let mut out = chars_of(f.format_id.as_str());
    extend_chars(&mut out, chars_of(" (").as_slice());
    let up = to_uppercase(f.ext.as_str());
    extend_chars(&mut out, chars_of(up.as_str()).as_slice());
    extend_chars(&mut out, chars_of(")").as_slice());
    out
}

fn video_label_exec(f: &FormatRecord) -> (r: String)
    ensures
        r@ == video_label(*f),
{
    match f.height {
        Some(h) => {
            let mut out: Vec<char> = Vec::new();
            push_decimal(&mut out, h);
            assert(out@ =~= decimal(h as nat));
            match &f.fps_text {
                Some(t) => {
                    extend_chars(&mut out, chars_of("p ").as_slice());
                    extend_chars(&mut out, chars_of(t.as_str()).as_slice());
                    extend_chars(&mut out, chars_of("fps").as_slice());
                },
                None => {
                    extend_chars(&mut out, chars_of("p").as_slice());
                },
            }
            string_of(out.as_slice())
        },
        None => {
            let out = id_label_exec(f);
            string_of(out.as_slice())
        },
    }
}

fn audio_label_exec(f: &FormatRecord) -> (r: String)
    ensures
        r@ == audio_label(*f),
{
    let rate = if f.abr.rank > ZERO_RANK {
        &f.abr
    } else {
        &f.tbr
    };
    if rate.rank > ZERO_RANK {
        let mut out = chars_of(rate.text.as_str());
        extend_chars(&mut out, chars_of(" kbps (").as_slice());
        let up = to_uppercase(f.ext.as_str());
        extend_chars(&mut out, chars_of(up.as_str()).as_slice());
        extend_chars(&mut out, chars_of(")").as_slice());
        string_of(out.as_slice())
    } else {
        let out = id_label_exec(f);
        string_of(out.as_slice())
    }
}

/// The video and audio entries offered to the user for yt-dlp's list of
/// formats `formats`: one video entry per resolution (the format of that
/// resolution with the highest total bitrate; the first one on ties), listed
/// from the highest resolution down, and the audio-only formats listed from
/// the highest bitrate down (both orders stable).
pub fn select_formats(formats: &[FormatRecord]) -> (r: FormatLists)
    ensures
        r.video@.len() == video_order(formats@).len(),
        forall|k: int|
            0 <= k < r.video@.len() ==> {
                let i = #[trigger] video_order(formats@)[k].0;
                &&& r.video@[k].source == i
                &&& i < formats@.len()
                &&& r.video@[k].has_audio == has_audio(formats@[i as int])
                &&& r.video@[k].label@ == video_label(formats@[i as int])
            },
        r.audio@.len() == audio_order(formats@).len(),
        forall|k: int|
            0 <= k < r.audio@.len() ==> {
                let i = #[trigger] audio_order(formats@)[k].0;
                &&& r.audio@[k].source == i
                &&& i < formats@.len()
                &&& r.audio@[k].uses_abr == (formats@[i as int].abr.rank > ZERO_RANK)
                &&& r.audio@[k].label@ == audio_label(formats@[i as int])
            },
{
    let ghost fs = formats@;
    let slots = video_slots_exec(formats);
    let mut keyed: Vec<(usize, u64)> = Vec::new();
    for k in 0..slots.len()
        invariant
            fs == formats@,
            forall|j: int| 0 <= j < slots@.len() ==> slots@[j] < fs.len(),
            keyed@ == slots@.take(k as int).map_values(|i: usize| (i, height_key(fs[i as int]))),
    {
        let i = slots[k];
        keyed.push((i, opt_or_zero(formats[i].height)));
        assert(keyed@ =~= slots@.take(k + 1).map_values(|i: usize| (i, height_key(fs[i as int]))));
    }
    assert(slots@.take(slots@.len() as int) =~= slots@);
    let order = sort_desc_exec(&keyed);
    proof {
        lemma_sort_desc_contents(keyed@);
    }
    let mut video: Vec<VideoChoice> = Vec::new();
    for k in 0..order.len()
        invariant
            fs == formats@,
            order@ == video_order(fs),
            keyed@ == slots@.map_values(|i: usize| (i, height_key(fs[i as int]))),
            forall|j: int| 0 <= j < slots@.len() ==> slots@[j] < fs.len(),
            forall|m: int| 0 <= m < order@.len() ==> keyed@.contains(#[trigger] order@[m]),
            video@.len() == k,
            forall|m: int|
                0 <= m < k ==> {
                    let i = #[trigger] video_order(fs)[m].0;
                    &&& video@[m].source == i
                    &&& i < fs.len()
                    &&& video@[m].has_audio == has_audio(fs[i as int])
                    &&& video@[m].label@ == video_label(fs[i as int])
                },
    {
        let i = order[k].0;
        proof {
            assert(keyed@.contains(order@[k as int]));
            let j = choose|j: int| 0 <= j < keyed@.len() && keyed@[j] == order@[k as int];
            assert(slots@[j] < fs.len());
        }
        let f = &formats[i];
        let choice = VideoChoice {
            source: i,
            has_audio: is_present_codec(&f.acodec),
            label: video_label_exec(f),
        };
        video.push(choice);
    }
    let sources = audio_sources_exec(formats);
    let mut keyed_audio: Vec<(usize, u64)> = Vec::new();
    for k in 0..sources.len()
        invariant
            fs == formats@,
            forall|j: int| 0 <= j < sources@.len() ==> sources@[j] < fs.len(),
            keyed_audio@ == sources@.take(k as int).map_values(
                |i: usize| (i, audio_rate(fs[i as int]).rank),
            ),
    {
        let i = sources[k];
        let f = &formats[i];
        let rank = if f.abr.rank > ZERO_RANK {
            f.abr.rank
        } else {
            f.tbr.rank
        };
        keyed_audio.push((i, rank));
        assert(keyed_audio@ =~= sources@.take(k + 1).map_values(
            |i: usize| (i, audio_rate(fs[i as int]).rank),
        ));
    }
    assert(sources@.take(sources@.len() as int) =~= sources@);
    let audio_ord = sort_desc_exec(&keyed_audio);
    proof {
        lemma_sort_desc_contents(keyed_audio@);
    }
    let mut audio: Vec<AudioChoice> = Vec::new();
    for k in 0..audio_ord.len()
        invariant
            fs == formats@,
            audio_ord@ == audio_order(fs),
            keyed_audio@ == sources@.map_values(|i: usize| (i, audio_rate(fs[i as int]).rank)),
            forall|j: int| 0 <= j < sources@.len() ==> sources@[j] < fs.len(),
            forall|m: int| 0 <= m < audio_ord@.len() ==> keyed_audio@.contains(#[trigger] audio_ord@[m]),
            audio@.len() == k,
            forall|m: int|
                0 <= m < k ==> {
                    let i = #[trigger] audio_order(fs)[m].0;
                    &&& audio@[m].source == i
                    &&& i < fs.len()
                    &&& audio@[m].uses_abr == (fs[i as int].abr.rank > ZERO_RANK)
                    &&& audio@[m].label@ == audio_label(fs[i as int])
                },
    {
        let i = audio_ord[k].0;
        proof {
            assert(keyed_audio@.contains(audio_ord@[k as int]));
            let j = choose|j: int| 0 <= j < keyed_audio@.len() && keyed_audio@[j] == audio_ord@[k as int];
            assert(sources@[j] < fs.len());
        }
        let f = &formats[i];
        let choice = AudioChoice {
            source: i,
            uses_abr: f.abr.rank > ZERO_RANK,
            label: audio_label_exec(f),
        };
        audio.push(choice);
    }
    FormatLists { video, audio }
}

// ───────────────────────────── laws ─────────────────────────────

/// Keys never increase along `s`.
pub open spec fn sorted_desc(s: Seq<(usize, u64)>) -> bool {
    forall|i: int, j: int| 0 <= i < j < s.len() ==> s[i].1 >= s[j].1
}

proof fn lemma_insert_desc_sorted(x: (usize, u64), s: Seq<(usize, u64)>)
    requires
        sorted_desc(s),
    ensures
        sorted_desc(insert_desc(x, s)),
    decreases s.len(),
{
    lemma_insert_desc_contents(x, s);
    if s.len() > 0 && s[0].1 >= x.1 {
        let t = s.drop_first();
        lemma_insert_desc_sorted(x, t);
        lemma_insert_desc_contents(x, t);
        let r = insert_desc(x, s);
        assert forall|i: int, j: int| 0 <= i < j < r.len() implies r[i].1 >= r[j].1 by {
            if i == 0 {
                let e = insert_desc(x, t)[j - 1];
                assert(r[j] == e);
                if e != x {
                    let k = choose|k: int| 0 <= k < t.len() && t[k] == e;
                    assert(s[k + 1] == e);
                }
            } else {
                assert(r[i] == insert_desc(x, t)[i - 1]);
                assert(r[j] == insert_desc(x, t)[j - 1]);
            }
        }
    } else if s.len() > 0 {
        let r = insert_desc(x, s);
        assert forall|i: int, j: int| 0 <= i < j < r.len() implies r[i].1 >= r[j].1 by {
            assert(r[j] == s[j - 1]);
            if i > 0 {
                assert(r[i] == s[i - 1]);
            } else {
                assert(s[0].1 >= s[j - 1].1);
            }
        }
    }
}

/// Law: the entries offered are sorted by key, highest first.
pub proof fn lemma_sort_desc_sorted(s: Seq<(usize, u64)>)
    ensures
        sorted_desc(sort_desc(s)),
    decreases s.len(),
{
    if s.len() > 0 {
        lemma_sort_desc_sorted(s.drop_last());
        lemma_insert_desc_sorted(s.last(), sort_desc(s.drop_last()));
    }
}

proof fn lemma_insert_desc_multiset(x: (usize, u64), s: Seq<(usize, u64)>)
    ensures
        insert_desc(x, s).to_multiset() == s.to_multiset().insert(x),
    decreases s.len(),
{
    broadcast use vstd::seq_lib::group_to_multiset_ensures;

    if s.len() == 0 {
        assert(insert_desc(x, s) =~= s.push(x));
    } else if s[0].1 >= x.1 {
        let t = s.drop_first();
        lemma_insert_desc_multiset(x, t);
        let r = insert_desc(x, t);
        assert(insert_desc(x, s) =~= r.insert(0, s[0]));
        assert(s =~= t.insert(0, s[0]));
        assert(insert_desc(x, s).to_multiset() =~= s.to_multiset().insert(x));
    } else {
        assert(insert_desc(x, s) =~= s.insert(0, x));
    }
}

/// Law: sorting neither loses nor adds an entry.
pub proof fn lemma_sort_desc_permutes(s: Seq<(usize, u64)>)
    ensures
        sort_desc(s).to_multiset() == s.to_multiset(),
    decreases s.len(),
{
    broadcast use vstd::seq_lib::group_to_multiset_ensures;

    if s.len() > 0 {
        lemma_sort_desc_permutes(s.drop_last());
        lemma_insert_desc_multiset(s.last(), sort_desc(s.drop_last()));
        assert(s.drop_last().push(s.last()) =~= s);
    }
}

proof fn lemma_first_slot(fs: Seq<FormatRecord>, slots: Seq<usize>, key: (u64, u64), j: int)
    requires
        slot_matches(fs, slots, key, j),
    ensures
        exists|i: int|
            slot_matches(fs, slots, key, i) && forall|k: int|
                0 <= k < i ==> !slot_matches(fs, slots, key, k),
    decreases j,
{
    if exists|k: int| 0 <= k < j && slot_matches(fs, slots, key, k) {
        let k = choose|k: int| 0 <= k < j && slot_matches(fs, slots, key, k);
        lemma_first_slot(fs, slots, key, k);
    } else {
        assert(forall|k: int| 0 <= k < j ==> !slot_matches(fs, slots, key, k));
    }
}

/// `slot_of` names a slot of that resolution, or there is none.
proof fn lemma_slot_of(fs: Seq<FormatRecord>, slots: Seq<usize>, key: (u64, u64))
    ensures
        slot_of(fs, slots, key) >= 0 ==> slot_matches(fs, slots, key, slot_of(fs, slots, key)),
        slot_of(fs, slots, key) < 0 ==> forall|k: int| !slot_matches(fs, slots, key, k),
{
    if exists|j: int| slot_matches(fs, slots, key, j) {
        let j = choose|j: int| slot_matches(fs, slots, key, j);
        lemma_first_slot(fs, slots, key, j);
    }
}

/// Law: no two video entries have the same resolution, and each is a video
/// format among those seen.
pub proof fn lemma_video_slots_one_per_resolution(fs: Seq<FormatRecord>, n: nat)
    requires
        n <= fs.len() <= usize::MAX,
    ensures
        forall|a: int, b: int|
            0 <= a < b < video_slots(fs, n).len() ==> resolution(fs[video_slots(fs, n)[a] as int])
                != resolution(fs[video_slots(fs, n)[b] as int]),
        forall|a: int|
            0 <= a < video_slots(fs, n).len() ==> video_slots(fs, n)[a] < n && has_video(
                fs[video_slots(fs, n)[a] as int],
            ),
    decreases n,
{
    if n > 0 {
        let m = (n - 1) as nat;
        lemma_video_slots_one_per_resolution(fs, m);
        let prev = video_slots(fs, m);
        let f = fs[m as int];
        if has_video(f) {
            let key = resolution(f);
            let j = slot_of(fs, prev, key);
            let cur = video_slots(fs, n);
            lemma_slot_of(fs, prev, key);
            if j < 0 {
                assert(!exists|k: int| slot_matches(fs, prev, key, k));
                assert forall|a: int, b: int| 0 <= a < b < cur.len() implies resolution(
                    fs[cur[a] as int],
                ) != resolution(fs[cur[b] as int]) by {
                    if b == prev.len() {
                        assert(!slot_matches(fs, prev, key, a));
                    }
                }
            } else {
                assert(slot_matches(fs, prev, key, j));
            }
        }
    }
}

/// Some entry among `slots` has the resolution of format `k` and at least
/// its total bitrate.
pub open spec fn covered(fs: Seq<FormatRecord>, slots: Seq<usize>, k: int) -> bool {
    exists|a: int|
        0 <= a < slots.len() && resolution(fs[slots[a] as int]) == resolution(fs[k])
            && fs[k].tbr.rank <= fs[slots[a] as int].tbr.rank
}

proof fn lemma_covered_step(fs: Seq<FormatRecord>, n: nat, k: int)
    requires
        0 < n <= fs.len() <= usize::MAX,
        0 <= k < n,
        has_video(fs[k]),
        k < n - 1 ==> covered(fs, video_slots(fs, (n - 1) as nat), k),
    ensures
        covered(fs, video_slots(fs, n), k),
{
    let m = (n - 1) as nat;
    let prev = video_slots(fs, m);
    let cur = video_slots(fs, n);
    let f = fs[m as int];
    if has_video(f) {
        let key = resolution(f);
        let j = slot_of(fs, prev, key);
        lemma_slot_of(fs, prev, key);
        if k == m {
            if j < 0 {
                assert(cur[prev.len() as int] == m);
            } else if f.tbr.rank > fs[prev[j] as int].tbr.rank {
                assert(cur[j] == m);
            } else {
                assert(resolution(fs[cur[j] as int]) == key);
            }
        } else {
            let a = choose|a: int|
                0 <= a < prev.len() && resolution(fs[prev[a] as int]) == resolution(fs[k])
                    && fs[k].tbr.rank <= fs[prev[a] as int].tbr.rank;
            if j >= 0 && a == j {
                assert(resolution(fs[cur[a] as int]) == resolution(fs[k]));
            } else {
                assert(cur[a] == prev[a]);
            }
        }
    } else {
        let a = choose|a: int|
            0 <= a < prev.len() && resolution(fs[prev[a] as int]) == resolution(fs[k])
                && fs[k].tbr.rank <= fs[prev[a] as int].tbr.rank;
        assert(cur[a] == prev[a]);
    }
}

/// Law: every video format seen has an entry of its resolution, and that
/// entry's total bitrate is at least its own (the entry kept is one with the
/// highest total bitrate of its resolution).
pub proof fn lemma_video_slots_best_bitrate(fs: Seq<FormatRecord>, n: nat)
    requires
        n <= fs.len() <= usize::MAX,
    ensures
        forall|k: int| 0 <= k < n && has_video(#[trigger] fs[k]) ==> covered(fs, video_slots(fs, n), k),
    decreases n,
{
    if n > 0 {
        lemma_video_slots_best_bitrate(fs, (n - 1) as nat);
        assert forall|k: int| 0 <= k < n && has_video(#[trigger] fs[k]) implies covered(
            fs,
            video_slots(fs, n),
            k,
        ) by {
            lemma_covered_step(fs, n, k);
        }
    }
}

/// The message for a format query that failed with the stderr text `stderr`:
/// the message `classify_error` gives for its lines.
pub fn formats_failure_message(stderr: &str) -> (r: String)
    ensures
        r@ == error_message(lines(stderr@)),
{
    let c = chars_of(stderr);
    let ls = lines_of(c.as_slice());
    let n = ls.len();
    let mut out: Vec<String> = Vec::new();
    for i in 0..n
        invariant
            n == ls@.len(),
            views(out@) == char_views(ls@).take(i as int),
    {
        let ghost before = views(out@);
        let line = string_of(ls[i].as_slice());
        assert(line@ == char_views(ls@)[i as int]);
        out.push(line);
        assert(views(out@) =~= before.push(line@));
        assert(char_views(ls@).take(i + 1) =~= char_views(ls@).take(i as int).push(line@));
    }
    assert(char_views(ls@).take(n as int) =~= char_views(ls@));
    classify_error(out.as_slice())
}

} // verus!
