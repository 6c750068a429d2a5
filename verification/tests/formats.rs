use mptube::formats::{formats_failure_message, select_formats, FormatRecord, Rate, ZERO_RANK};

fn rate(rank: u64, text: &str) -> Rate {
    Rate { rank, text: text.to_string() }
}

fn video(id: &str, w: u64, h: u64, tbr: u64, acodec: &str) -> FormatRecord {
    FormatRecord {
        format_id: id.to_string(),
        ext: "mp4".to_string(),
        vcodec: "avc1".to_string(),
        acodec: acodec.to_string(),
        width: Some(w),
        height: Some(h),
        fps_text: Some("30".to_string()),
        tbr: rate(ZERO_RANK + tbr, &tbr.to_string()),
        abr: rate(ZERO_RANK, "0"),
    }
}

fn audio(id: &str, abr: u64, tbr: u64) -> FormatRecord {
    FormatRecord {
        format_id: id.to_string(),
        ext: "m4a".to_string(),
        vcodec: "none".to_string(),
        acodec: "mp4a".to_string(),
        width: None,
        height: None,
        fps_text: None,
        tbr: rate(ZERO_RANK + tbr, &tbr.to_string()),
        abr: rate(ZERO_RANK + abr, &abr.to_string()),
    }
}

#[test]
fn one_video_entry_per_resolution_best_bitrate() {
    let fs = vec![
        video("a", 640, 360, 100, "none"),
        video("b", 1920, 1080, 900, "none"),
        video("c", 640, 360, 300, "mp4a"),
        video("d", 1280, 720, 500, "none"),
        video("e", 640, 360, 300, "none"),
    ];
    let r = select_formats(&fs);
    let ids: Vec<usize> = r.video.iter().map(|v| v.source).collect();
    assert_eq!(ids, vec![1, 3, 2]);
    assert_eq!(r.video[0].label, "1080p 30fps");
    assert!(r.video[2].has_audio);
    assert!(r.audio.is_empty());
}

#[test]
fn labels_without_height_or_fps() {
    let mut f = video("137", 0, 0, 10, "none");
    f.height = None;
    f.width = None;
    f.ext = "webm".to_string();
    let mut g = video("x", 10, 240, 10, "none");
    g.fps_text = None;
    let r = select_formats(&[f, g]);
    assert_eq!(r.video[0].label, "240p");
    assert_eq!(r.video[1].label, "137 (WEBM)");
}

#[test]
fn audio_sorted_by_bitrate() {
    let fs = vec![audio("a1", 0, 0), audio("a2", 128, 130), audio("a3", 0, 64), audio("a4", 160, 170)];
    let r = select_formats(&fs);
    let ids: Vec<usize> = r.audio.iter().map(|a| a.source).collect();
    assert_eq!(ids, vec![3, 1, 2, 0]);
    assert_eq!(r.audio[0].label, "160 kbps (M4A)");
    assert!(r.audio[0].uses_abr);
    assert_eq!(r.audio[2].label, "64 kbps (M4A)");
    assert!(!r.audio[2].uses_abr);
    assert_eq!(r.audio[3].label, "a1 (M4A)");
}

#[test]
fn formats_without_streams_are_skipped() {
    let mut f = audio("sb", 0, 0);
    f.acodec = "none".to_string();
    let mut g = audio("empty", 0, 0);
    g.acodec = "".to_string();
    let r = select_formats(&[f, g]);
    assert!(r.video.is_empty() && r.audio.is_empty());
}

#[test]
fn failure_message_from_stderr_text() {
    assert_eq!(
        formats_failure_message("WARNING: a\r\nERROR: [youtube] x: Private video\n"),
        "Vídeo privado — não é possível baixar"
    );
    assert_eq!(formats_failure_message("ERROR: [x]: gone\r\n"), "gone");
}
