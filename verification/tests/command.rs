use mptube::command::{build_format_arg, query_args_for, ytdlp_args};

#[test]
fn audio_format_selection() {
    let (f, s) = build_format_arg("audio", "320k");
    assert_eq!(f, "bestaudio/best");
    assert_eq!(s.as_deref(), Some("abr,asr,br,size"));
}

#[test]
fn video_with_height_limit() {
    let (f, s) = build_format_arg("video", "720p");
    assert_eq!(f, "bestvideo[height<=720]+bestaudio/best[height<=720]/bestvideo+bestaudio/best");
    assert_eq!(s.as_deref(), Some("res:720,fps,vcodec:h264,acodec:aac,br,size"));
    let (f, s) = build_format_arg("video", "2160p");
    assert_eq!(f, "bestvideo[height<=2160]+bestaudio/best[height<=2160]/bestvideo+bestaudio/best");
    assert_eq!(s.as_deref(), Some("res:2160,fps,vcodec:h264,acodec:aac,br,size"));
}

#[test]
fn video_best_quality() {
    let (f, s) = build_format_arg("video", "best");
    assert_eq!(f, "bestvideo+bestaudio/best");
    assert_eq!(s.as_deref(), Some("res,fps,vcodec:h264,acodec:aac,br,size"));
}

#[test]
fn download_args_for_video() {
    let args = ytdlp_args(
        "https://youtu.be/x",
        "video",
        "mp4",
        "bestvideo+bestaudio/best",
        Some("res,fps"),
        "/data/abc",
        None,
        Some("/opt/ffmpeg"),
    );
    assert_eq!(args[0], "--ffmpeg-location");
    assert_eq!(args[1], "/opt/ffmpeg");
    assert_eq!(args[2], "--user-agent");
    let f = args.iter().position(|a| a == "-f").unwrap();
    assert_eq!(args[f + 1], "bestvideo+bestaudio/best");
    assert_eq!(args[f + 2], "--format-sort");
    assert_eq!(args[f + 3], "res,fps");
    assert_eq!(args[f + 4], "-o");
    assert_eq!(args[f + 5], "/data/abc/%(title)s.%(ext)s");
    assert!(args.contains(&"--merge-output-format".to_string()));
    assert!(!args.contains(&"--cookies".to_string()));
    assert_eq!(args.last().unwrap(), "https://youtu.be/x");
}

#[test]
fn download_args_for_audio() {
    let args = ytdlp_args("u", "audio", "mp3", "bestaudio/best", None, "d", Some("c.txt"), None);
    assert_eq!(args[0], "--cookies");
    assert_eq!(args[1], "c.txt");
    let x = args.iter().position(|a| a == "-x").unwrap();
    assert_eq!(&args[x..], &["-x", "--audio-format", "mp3", "--audio-quality", "0", "u"]);
    assert!(!args.contains(&"--format-sort".to_string()));
}

#[test]
fn query_args() {
    let args = query_args_for("https://x.com/a", None, None);
    assert_eq!(args.len(), 5);
    assert_eq!(&args[2..], &["--no-playlist", "-J", "https://x.com/a"]);
}
