use mptube::desktop::{bundled_ffmpeg, path_fallback, pick_sidecar, sidecar_candidates, SidecarBase};

#[test]
fn candidates_in_order() {
    let c = sidecar_candidates("yt-dlp");
    assert_eq!(c.len(), 4);
    assert_eq!(c[0].base, SidecarBase::ResourceParent);
    assert_eq!(c[0].relative, vec!["MacOS".to_string(), "yt-dlp".to_string()]);
    assert_eq!(c[1].relative, vec!["yt-dlp.exe".to_string()]);
    assert_eq!(c[2].base, SidecarBase::Resource);
    assert_eq!(c[3].relative, vec!["yt-dlp.exe".to_string()]);
}

#[test]
fn fallbacks() {
    assert_eq!(path_fallback("ffmpeg", true), "ffmpeg.exe");
    assert_eq!(path_fallback("ffmpeg", false), "ffmpeg");
    assert_eq!(bundled_ffmpeg("ffmpeg".to_string()), None);
    assert_eq!(bundled_ffmpeg("ffmpeg.exe".to_string()), None);
    assert_eq!(bundled_ffmpeg("/app/ffmpeg".to_string()), Some("/app/ffmpeg".to_string()));
}

#[test]
fn first_existing_place() {
    assert_eq!(pick_sidecar(&[false, true, true, false]), Some(1));
    assert_eq!(pick_sidecar(&[true, false, false, false]), Some(0));
    assert_eq!(pick_sidecar(&[false, false, false, false]), None);
}
