//! The command lines given to yt-dlp: the format selection for a media type
//! and quality, the arguments of a download, and those of a format query.
use vstd::prelude::*;
use crate::text::{chars_eq, chars_of, decimal, extend_chars, push_decimal, string_of, views};

verus! {

broadcast use vstd::string::group_string_axioms;

pub const USER_AGENT: &'static str = "Mozilla/5.0 (Macintosh; Intel Mac OS X 10_15_7) AppleWebKit/537.36 (KHTML, like Gecko) Chrome/124.0.0.0 Safari/537.36";
pub const ACCEPT_LANGUAGE_HEADER: &'static str = "Accept-Language:pt-BR,pt;q=0.9,en-US;q=0.8,en;q=0.7";
pub const ACCEPT_HEADER: &'static str = "Accept:text/html,application/xhtml+xml,application/xml;q=0.9,image/avif,image/webp,*/*;q=0.8";
/// Re-encodes to H.264 + AAC in MP4, which QuickTime and iPhones play.
pub const MERGER_ARGS: &'static str = "Merger+ffmpeg:-c:v libx264 -crf 18 -preset fast -c:a aac -b:a 192k -movflags +faststart";
/// Prefers H.264 (avc1) and AAC (mp4a), for the widest compatibility.
pub const VIDEO_SORT: &'static str = "res,fps,vcodec:h264,acodec:aac,br,size";

// ───────────────────────────── format selection ─────────────────────────────

/// The height limit of a quality name, for the qualities that have one.
pub open spec fn quality_height(q: Seq<char>) -> Option<u64> {
    if q == "360p"@ {
        Some(360)
    } else if q == "480p"@ {
        Some(480)
    } else if q == "720p"@ {
        Some(720)
    } else if q == "1080p"@ {
        Some(1080)
    } else if q == "1440p"@ {
        Some(1440)
    } else if q == "2160p"@ {
        Some(2160)
    } else {
        None
    }
}

/// yt-dlp's `-f` selection and `--format-sort` order for a media type and
/// quality: the best audio for `"audio"`; for video, the best streams no
/// higher than the quality's height (falling back to the best overall), or
/// the best overall for a quality without a height.
pub open spec fn format_choice(media_type: Seq<char>, quality: Seq<char>) -> (Seq<char>, Option<Seq<char>>) {
    if media_type == "audio"@ {
        ("bestaudio/best"@, Some("abr,asr,br,size"@))
    } else {
        match quality_height(quality) {
            None => ("bestvideo+bestaudio/best"@, Some(VIDEO_SORT@)),
            Some(h) => (
                "bestvideo[height<="@ + decimal(h as nat) + "]+bestaudio/best[height<="@ + decimal(
                    h as nat,
                ) + "]/bestvideo+bestaudio/best"@,
                Some("res:"@ + decimal(h as nat) + ",fps,vcodec:h264,acodec:aac,br,size"@),
            ),
        }
    }
}

/// Whether two strings are equal.
pub fn str_eq(a: &str, b: &str) -> (r: bool)
    ensures
        r == (a@ == b@),
{
    let x = chars_of(a);
    let y = chars_of(b);
    chars_eq(x.as_slice(), y.as_slice())
}

fn quality_height_exec(q: &str) -> (r: Option<u64>)
    ensures
        r == quality_height(q@),
{
    if str_eq(q, "360p") {
        Some(360)
    } else if str_eq(q, "480p") {
        Some(480)
    } else if str_eq(q, "720p") {
        Some(720)
    } else if str_eq(q, "1080p") {
        Some(1080)
    } else if str_eq(q, "1440p") {
        Some(1440)
    } else if str_eq(q, "2160p") {
        Some(2160)
    } else {
        None
    }
}

/// The `-f` selection and the `--format-sort` order given to yt-dlp for a
/// media type (`"audio"` or video) and a quality (`"360p"` ... `"2160p"`,
/// anything else meaning the best available).
pub fn build_format_arg(media_type: &str, quality: &str) -> (r: (String, Option<String>))
    ensures
        (r.0@, match r.1 {
            Some(s) => Some(s@),
            None => None,
        }) == format_choice(media_type@, quality@),
{
    if str_eq(media_type, "audio") {
        return ("bestaudio/best".to_string(), Some("abr,asr,br,size".to_string()));
    }
    let h = match quality_height_exec(quality) {
        Some(h) => h,
        None => {
            return ("bestvideo+bestaudio/best".to_string(), Some(VIDEO_SORT.to_string()));
        },
    };
    let mut digits: Vec<char> = Vec::new();
    push_decimal(&mut digits, h);
    assert(digits@ =~= decimal(h as nat));
    let mut sel = chars_of("bestvideo[height<=");
    extend_chars(&mut sel, digits.as_slice());
    extend_chars(&mut sel, chars_of("]+bestaudio/best[height<=").as_slice());
    extend_chars(&mut sel, digits.as_slice());
    extend_chars(&mut sel, chars_of("]/bestvideo+bestaudio/best").as_slice());
    let mut sort = chars_of("res:");
    extend_chars(&mut sort, digits.as_slice());
    extend_chars(&mut sort, chars_of(",fps,vcodec:h264,acodec:aac,br,size").as_slice());
    (string_of(sel.as_slice()), Some(string_of(sort.as_slice())))
}

// ───────────────────────────── argument lists ─────────────────────────────

/// A flag and its value, or nothing when there is no value.
pub open spec fn opt_arg(flag: Seq<char>, value: Option<Seq<char>>) -> Seq<Seq<char>> {
    match value {
        Some(v) => seq![flag, v],
        None => Seq::empty(),
    }
}

/// The view of an optional string slice.
pub open spec fn str_opt_view(s: Option<&str>) -> Option<Seq<char>> {
    match s {
        Some(x) => Some(x@),
        None => None,
    }
}

/// The arguments of a yt-dlp download (after the program name).
pub open spec fn download_args(
    url: Seq<char>,
    media_type: Seq<char>,
    format: Seq<char>,
    format_arg: Seq<char>,
    format_sort: Option<Seq<char>>,
    download_dir: Seq<char>,
    cookie_file: Option<Seq<char>>,
    ffmpeg_path: Option<Seq<char>>,
) -> Seq<Seq<char>> {
    opt_arg("--ffmpeg-location"@, ffmpeg_path) + opt_arg("--cookies"@, cookie_file) + seq![
        "--user-agent"@,
        USER_AGENT@,
        "--add-header"@,
        ACCEPT_LANGUAGE_HEADER@,
        "--add-header"@,
        ACCEPT_HEADER@,
        "--retries"@,
        "5"@,
        "--fragment-retries"@,
        "5"@,
        "--geo-bypass"@,
        "--newline"@,
        "--progress"@,
        "-f"@,
        format_arg,
    ] + opt_arg("--format-sort"@, format_sort) + seq![
        "-o"@,
        download_dir + "/%(title)s.%(ext)s"@,
        "--print"@,
        "after_move:filepath"@,
    ] + (if media_type == "audio"@ {
        seq!["-x"@, "--audio-format"@, format, "--audio-quality"@, "0"@]
    } else {
        seq!["--merge-output-format"@, "mp4"@, "--postprocessor-args"@, MERGER_ARGS@]
    }) + seq![url]
}

/// The arguments of a yt-dlp format query (`-J`, one video, nothing downloaded).
pub open spec fn query_args(url: Seq<char>, cookie_file: Option<Seq<char>>, ffmpeg_path: Option<Seq<char>>) -> Seq<Seq<char>> {
    opt_arg("--ffmpeg-location"@, ffmpeg_path) + opt_arg("--cookies"@, cookie_file) + seq![
        "--user-agent"@,
        USER_AGENT@,
        "--no-playlist"@,
        "-J"@,
        url,
    ]
}

fn push_arg(args: &mut Vec<String>, a: &str)
    ensures
        views(final(args)@) == views(old(args)@).push(a@),
{
    let ghost before = views(args@);
    args.push(a.to_string());
    assert(views(args@) =~= before.push(a@));
}

fn push_opt_arg(args: &mut Vec<String>, flag: &str, value: Option<&str>)
    ensures
        views(final(args)@) == views(old(args)@) + opt_arg(flag@, str_opt_view(value)),
{
    match value {
        Some(v) => {
            push_arg(args, flag);
            push_arg(args, v);
            assert(views(args@) =~= views(old(args)@) + opt_arg(flag@, str_opt_view(value)));
        },
        None => {
            assert(views(args@) =~= views(old(args)@) + opt_arg(flag@, str_opt_view(value)));
        },
    }
}

/// The arguments that `build_ytdlp_cmd` gives to yt-dlp (after the program
/// name): the bundled ffmpeg and the cookies file when there are any, browser
/// headers, retries, geo-bypass, line-wise progress, the format selection and
/// order, the output template in `download_dir`, the printed file path, then
/// the audio extraction or the H.264/AAC MP4 merge, and last the URL.
pub fn ytdlp_args(
    url: &str,
    media_type: &str,
    format: &str,
    format_arg: &str,
    format_sort: Option<&str>,
    download_dir: &str,
    cookie_file: Option<&str>,
    ffmpeg_path: Option<&str>,
) -> (r: Vec<String>)
    ensures
        views(r@) == download_args(
            url@,
            media_type@,
            format@,
            format_arg@,
            str_opt_view(format_sort),
            download_dir@,
            str_opt_view(cookie_file),
            str_opt_view(ffmpeg_path),
        ),
{
    let mut args: Vec<String> = Vec::new();
    push_opt_arg(&mut args, "--ffmpeg-location", ffmpeg_path);
    push_opt_arg(&mut args, "--cookies", cookie_file);
    push_arg(&mut args, "--user-agent");
    push_arg(&mut args, USER_AGENT);
    push_arg(&mut args, "--add-header");
    push_arg(&mut args, ACCEPT_LANGUAGE_HEADER);
    push_arg(&mut args, "--add-header");
    push_arg(&mut args, ACCEPT_HEADER);
    push_arg(&mut args, "--retries");
    push_arg(&mut args, "5");
    push_arg(&mut args, "--fragment-retries");
    push_arg(&mut args, "5");
    push_arg(&mut args, "--geo-bypass");
    push_arg(&mut args, "--newline");
    push_arg(&mut args, "--progress");
    push_arg(&mut args, "-f");
    push_arg(&mut args, format_arg);
    let ghost fixed = views(args@);
    push_opt_arg(&mut args, "--format-sort", format_sort);
    let mut template = chars_of(download_dir);
    extend_chars(&mut template, chars_of("/%(title)s.%(ext)s").as_slice());
    let template = string_of(template.as_slice());
    push_arg(&mut args, "-o");
    push_arg(&mut args, template.as_str());
    push_arg(&mut args, "--print");
    push_arg(&mut args, "after_move:filepath");
    let ghost middle = views(args@);
    if str_eq(media_type, "audio") {
        push_arg(&mut args, "-x");
        push_arg(&mut args, "--audio-format");
        push_arg(&mut args, format);
        push_arg(&mut args, "--audio-quality");
        push_arg(&mut args, "0");
    } else {
        push_arg(&mut args, "--merge-output-format");
        push_arg(&mut args, "mp4");
        push_arg(&mut args, "--postprocessor-args");
        push_arg(&mut args, MERGER_ARGS);
    }
    push_arg(&mut args, url);
    assert(views(args@) =~= download_args(
        url@,
        media_type@,
        format@,
        format_arg@,
        str_opt_view(format_sort),
        download_dir@,
        str_opt_view(cookie_file),
        str_opt_view(ffmpeg_path),
    ));
    args
}

/// The arguments of the yt-dlp format query made by `fetch_formats_json`
/// (after the program name): the bundled ffmpeg and the cookies file when
/// there are any, a browser user agent, one video only, `-J`, and the URL.
pub fn query_args_for(url: &str, cookie_file: Option<&str>, ffmpeg_path: Option<&str>) -> (r: Vec<String>)
    ensures
        views(r@) == query_args(url@, str_opt_view(cookie_file), str_opt_view(ffmpeg_path)),
{
    let mut args: Vec<String> = Vec::new();
    push_opt_arg(&mut args, "--ffmpeg-location", ffmpeg_path);
    push_opt_arg(&mut args, "--cookies", cookie_file);
    push_arg(&mut args, "--user-agent");
    push_arg(&mut args, USER_AGENT);
    push_arg(&mut args, "--no-playlist");
    push_arg(&mut args, "-J");
    push_arg(&mut args, url);
    assert(views(args@) =~= query_args(url@, str_opt_view(cookie_file), str_opt_view(ffmpeg_path)));
    args
}

/// Law: the URL is always the last argument of a download, and the format
/// selection always directly follows `-f`.
pub proof fn lemma_download_args_shape(
    url: Seq<char>,
    media_type: Seq<char>,
    format: Seq<char>,
    format_arg: Seq<char>,
    format_sort: Option<Seq<char>>,
    download_dir: Seq<char>,
    cookie_file: Option<Seq<char>>,
    ffmpeg_path: Option<Seq<char>>,
)
    ensures
        ({
            let a = download_args(
                url,
                media_type,
                format,
                format_arg,
                format_sort,
                download_dir,
                cookie_file,
                ffmpeg_path,
            );
            let k = opt_arg("--ffmpeg-location"@, ffmpeg_path).len() + opt_arg(
                "--cookies"@,
                cookie_file,
            ).len() + 13int;
            &&& a.last() == url
            &&& a[k] == "-f"@
            &&& a[k + 1] == format_arg
        }),
{
}

/// Law: right after the output template `-o <download_dir>/%(title)s.%(ext)s`
/// every download asks yt-dlp to `--print after_move:filepath`, the path of
/// the finished file, whatever the other arguments are.
pub proof fn lemma_download_prints_file_path(
    url: Seq<char>,
    media_type: Seq<char>,
    format: Seq<char>,
    format_arg: Seq<char>,
    format_sort: Option<Seq<char>>,
    download_dir: Seq<char>,
    cookie_file: Option<Seq<char>>,
    ffmpeg_path: Option<Seq<char>>,
)
    ensures
        ({
            let a = download_args(
                url,
                media_type,
                format,
                format_arg,
                format_sort,
                download_dir,
                cookie_file,
                ffmpeg_path,
            );
            let k = (if ffmpeg_path is Some { 2int } else { 0int }) + (if cookie_file is Some {
                2int
            } else {
                0int
            }) + 15 + (if format_sort is Some { 2int } else { 0int });
            &&& a[k] == "-o"@
            &&& a[k + 1] == download_dir + "/%(title)s.%(ext)s"@
            &&& a[k + 2] == "--print"@
            &&& a[k + 3] == "after_move:filepath"@
        }),
{
}

/// The height limit of the video qualities that have one.
proof fn lemma_quality_heights()
    ensures
        quality_height("360p"@) == Some(360u64),
        quality_height("480p"@) == Some(480u64),
        quality_height("720p"@) == Some(720u64),
        quality_height("1080p"@) == Some(1080u64),
        quality_height("1440p"@) == Some(1440u64),
        quality_height("2160p"@) == Some(2160u64),
{
    reveal_strlit("360p");
    reveal_strlit("480p");
    reveal_strlit("720p");
    reveal_strlit("1080p");
    reveal_strlit("1440p");
    reveal_strlit("2160p");
    assert("360p"@[0] == '3' && "480p"@[0] == '4' && "720p"@[0] == '7' && "2160p"@[0] == '2');
    assert("1080p"@[1] == '0' && "1440p"@[1] == '4' && "1080p"@[0] == '1' && "1440p"@[0] == '1');
    assert("360p"@.len() == 4 && "1080p"@.len() == 5);
}

/// For a video quality with height limit `h`, the selection caps the height
/// at `h` (`bestvideo[height<=h]` first) and the order starts with `res:h`.
proof fn lemma_cap_follows_height(media_type: Seq<char>, q: Seq<char>, h: u64, digits: Seq<char>)
    requires
        media_type != "audio"@,
        quality_height(q) == Some(h),
        decimal(h as nat) == digits,
    ensures
        ({
            let c = format_choice(media_type, q);
            &&& crate::text::occurs_at(c.0, "bestvideo[height<="@ + digits, 0)
            &&& c.1 is Some
            &&& crate::text::occurs_at(c.1->0, "res:"@ + digits + ","@, 0)
        }),
{
    reveal_strlit(",");
    reveal_strlit(",fps,vcodec:h264,acodec:aac,br,size");
    let c = format_choice(media_type, q);
    let p = "bestvideo[height<="@ + digits;
    assert(c.0.subrange(0, p.len() as int) =~= p);
    let r = "res:"@ + digits + ","@;
    assert(c.1->0.subrange(0, r.len() as int) =~= r);
}

/// Law: for video, a quality `"<N>p"` with `N` one of 360, 480, 720, 1080,
/// 1440, 2160 caps the selected height at `N` — the selection starts with
/// `bestvideo[height<=N]` — and the order starts with `res:N,`.
pub proof fn lemma_quality_caps_height(media_type: Seq<char>)
    requires
        media_type != "audio"@,
    ensures
        crate::text::occurs_at(format_choice(media_type, "360p"@).0, "bestvideo[height<=360"@, 0),
        crate::text::occurs_at(format_choice(media_type, "360p"@).1->0, "res:360,"@, 0),
        crate::text::occurs_at(format_choice(media_type, "480p"@).0, "bestvideo[height<=480"@, 0),
        crate::text::occurs_at(format_choice(media_type, "480p"@).1->0, "res:480,"@, 0),
        crate::text::occurs_at(format_choice(media_type, "720p"@).0, "bestvideo[height<=720"@, 0),
        crate::text::occurs_at(format_choice(media_type, "720p"@).1->0, "res:720,"@, 0),
        crate::text::occurs_at(format_choice(media_type, "1080p"@).0, "bestvideo[height<=1080"@, 0),
        crate::text::occurs_at(format_choice(media_type, "1080p"@).1->0, "res:1080,"@, 0),
        crate::text::occurs_at(format_choice(media_type, "1440p"@).0, "bestvideo[height<=1440"@, 0),
        crate::text::occurs_at(format_choice(media_type, "1440p"@).1->0, "res:1440,"@, 0),
        crate::text::occurs_at(format_choice(media_type, "2160p"@).0, "bestvideo[height<=2160"@, 0),
        crate::text::occurs_at(format_choice(media_type, "2160p"@).1->0, "res:2160,"@, 0),
{
    lemma_quality_heights();
    reveal_with_fuel(decimal, 5);
    reveal_strlit("bestvideo[height<=");
    reveal_strlit("res:");
    reveal_strlit(",");
    reveal_strlit("bestvideo[height<=360");
    reveal_strlit("res:360,");
    reveal_strlit("bestvideo[height<=480");
    reveal_strlit("res:480,");
    reveal_strlit("bestvideo[height<=720");
    reveal_strlit("res:720,");
    reveal_strlit("bestvideo[height<=1080");
    reveal_strlit("res:1080,");
    reveal_strlit("bestvideo[height<=1440");
    reveal_strlit("res:1440,");
    reveal_strlit("bestvideo[height<=2160");
    reveal_strlit("res:2160,");
    let d360 = seq!['3', '6', '0'];
    let d480 = seq!['4', '8', '0'];
    let d720 = seq!['7', '2', '0'];
    let d1080 = seq!['1', '0', '8', '0'];
    let d1440 = seq!['1', '4', '4', '0'];
    let d2160 = seq!['2', '1', '6', '0'];
    assert(decimal(360) =~= d360);
    assert(decimal(480) =~= d480);
    assert(decimal(720) =~= d720);
    assert(decimal(1080) =~= d1080);
    assert(decimal(1440) =~= d1440);
    assert(decimal(2160) =~= d2160);
    lemma_cap_follows_height(media_type, "360p"@, 360, d360);
    lemma_cap_follows_height(media_type, "480p"@, 480, d480);
    lemma_cap_follows_height(media_type, "720p"@, 720, d720);
    lemma_cap_follows_height(media_type, "1080p"@, 1080, d1080);
    lemma_cap_follows_height(media_type, "1440p"@, 1440, d1440);
    lemma_cap_follows_height(media_type, "2160p"@, 2160, d2160);
    assert("bestvideo[height<="@ + d360 =~= "bestvideo[height<=360"@);
    assert("res:"@ + d360 + ","@ =~= "res:360,"@);
    assert("bestvideo[height<="@ + d480 =~= "bestvideo[height<=480"@);
    assert("res:"@ + d480 + ","@ =~= "res:480,"@);
    assert("bestvideo[height<="@ + d720 =~= "bestvideo[height<=720"@);
    assert("res:"@ + d720 + ","@ =~= "res:720,"@);
    assert("bestvideo[height<="@ + d1080 =~= "bestvideo[height<=1080"@);
    assert("res:"@ + d1080 + ","@ =~= "res:1080,"@);
    assert("bestvideo[height<="@ + d1440 =~= "bestvideo[height<=1440"@);
    assert("res:"@ + d1440 + ","@ =~= "res:1440,"@);
    assert("bestvideo[height<="@ + d2160 =~= "bestvideo[height<=2160"@);
    assert("res:"@ + d2160 + ","@ =~= "res:2160,"@);
}

} // verus!
