use mptube::classify::{classify_error, is_transient_error, STALL_MARKER};

fn lines(v: &[&str]) -> Vec<String> {
    v.iter().map(|s| s.to_string()).collect()
}

#[test]
fn stall_marker_wins() {
    let l = lines(&["ERROR: HTTP Error 403: Forbidden", STALL_MARKER]);
    assert_eq!(classify_error(&l), "Download travado (sem progresso) — tentando novamente");
}

#[test]
fn forbidden_403() {
    let l = lines(&["[youtube] abc: Downloading", "ERROR: unable to download video data: HTTP Error 403: Forbidden"]);
    assert_eq!(classify_error(&l), "Acesso negado (403) — importe um arquivo de cookies atualizado");
}

#[test]
fn forbidden_by_exit_status() {
    let l = lines(&["ERROR: Postprocessing: ffprobe returned non-zero exit status 1 (code 403)"]);
    assert_eq!(classify_error(&l), "Acesso negado (403) — importe um arquivo de cookies atualizado");
}

#[test]
fn login_required() {
    let l = lines(&["ERROR: [youtube] abc: Sign in to confirm your age"]);
    assert_eq!(
        classify_error(&l),
        "Conteúdo requer login — exporte os cookies após fazer login e importe aqui"
    );
}

#[test]
fn rate_limited() {
    let l = lines(&["ERROR: HTTP Error 429: Too Many Requests"]);
    assert_eq!(classify_error(&l), "Rate limit (429) — aguarde alguns minutos e tente novamente");
}

#[test]
fn private_geo_removed_live_unavailable() {
    assert_eq!(classify_error(&lines(&["ERROR: [youtube] x: Private video"])), "Vídeo privado — não é possível baixar");
    assert_eq!(
        classify_error(&lines(&["ERROR: This video is not available in your country"])),
        "Conteúdo bloqueado na sua região"
    );
    assert_eq!(
        classify_error(&lines(&["ERROR: This video has been removed by the uploader"])),
        "Conteúdo removido ou indisponível"
    );
    assert_eq!(
        classify_error(&lines(&["ERROR: This live event has ended."])),
        "A transmissão ao vivo já terminou e não está mais disponível"
    );
    assert_eq!(
        classify_error(&lines(&["ERROR: [youtube] x: Video unavailable"])),
        "Vídeo indisponível — verifique se o link ainda é válido"
    );
}

#[test]
fn unsupported_ffmpeg_cookies() {
    assert_eq!(
        classify_error(&lines(&["ERROR: Unsupported URL: https://example.com"])),
        "URL não suportada — verifique o link"
    );
    assert_eq!(
        classify_error(&lines(&["ERROR: ffmpeg not found. Please install"])),
        "ffmpeg não encontrado — reinstale o mptube para restaurar os binários"
    );
    assert_eq!(
        classify_error(&lines(&["ERROR: Unable to download webpage: Cookies are invalid"])),
        "Arquivo de cookies inválido ou expirado — exporte novamente"
    );
}

#[test]
fn fallback_strips_location_prefix() {
    let l = lines(&["WARNING: something", "  ERROR: [youtube] abc123: Requested format is not available  "]);
    assert_eq!(classify_error(&l), "Requested format is not available");
    let l = lines(&["ERROR: [youtube]: Something odd happened"]);
    assert_eq!(classify_error(&l), "Something odd happened");
    // Only the first ": " after the first "]" ends the prefix.
    let l = lines(&["ERROR: [generic] id: a: b"]);
    assert_eq!(classify_error(&l), "a: b");
    // Only lines that start with "ERROR: [" carry the prefix.
    let l = lines(&["ERROR: unable to write: [Errno 2] No such file: 'x'"]);
    assert_eq!(classify_error(&l), "ERROR: unable to write: [Errno 2] No such file: 'x'");
    let l = lines(&["error: [x] id: lower case"]);
    assert_eq!(classify_error(&l), "error: [x] id: lower case");
    // A "]" with no ": " after it leaves the line whole.
    let l = lines(&["ERROR: [generic] nothing after"]);
    assert_eq!(classify_error(&l), "ERROR: [generic] nothing after");
}

#[test]
fn fallback_without_prefix_keeps_trimmed_line() {
    let l = lines(&["error: plain failure "]);
    assert_eq!(classify_error(&l), "error: plain failure");
}

#[test]
fn generic_when_no_error_line() {
    assert_eq!(classify_error(&lines(&["WARNING: x"])), "Download falhou — verifique a URL e tente novamente");
    assert_eq!(classify_error(&[]), "Download falhou — verifique a URL e tente novamente");
}

#[test]
fn causes_are_searched_in_error_lines_only_when_present() {
    // The 429 text is on a non-error line while an error line exists.
    let l = lines(&["WARNING: HTTP Error 429", "ERROR: [generic]: boom"]);
    assert_eq!(classify_error(&l), "boom");
    // Without error lines every line is searched.
    let l = lines(&["WARNING: HTTP Error 429"]);
    assert_eq!(classify_error(&l), "Rate limit (429) — aguarde alguns minutos e tente novamente");
}

#[test]
fn transient_errors() {
    assert!(is_transient_error(&lines(&[STALL_MARKER])));
    assert!(is_transient_error(&lines(&["ERROR: HTTP Error 429"])));
    assert!(is_transient_error(&lines(&["x", "Too Many Requests"])));
    assert!(!is_transient_error(&lines(&["ERROR: HTTP Error 403"])));
    assert!(!is_transient_error(&[]));
}
