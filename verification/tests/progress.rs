use mptube::progress::{progress_fields, stall_outcome, RunLog};
use mptube::classify::STALL_MARKER;

#[test]
fn reads_a_progress_line() {
    let f = progress_fields("[download]  42.5% of 10.00MiB at  1.20MiB/s ETA 00:07").unwrap();
    assert_eq!(f.percent, "42.5");
    assert_eq!(f.speed.as_deref(), Some("1.20MiB/s"));
    assert_eq!(f.eta.as_deref(), Some("00:07"));
}

#[test]
fn no_eta_without_the_word() {
    let f = progress_fields("[download] 100% of 10.00MiB in 00:00:03 at 2.9MiB/s").unwrap();
    assert_eq!(f.percent, "100");
    assert_eq!(f.speed.as_deref(), Some("2.9MiB/s"));
    assert_eq!(f.eta, None);
}

#[test]
fn other_lines_give_nothing() {
    assert!(progress_fields("[youtube] abc: Downloading webpage").is_none());
    assert!(progress_fields("[download] Destination: a.mp4").is_none());
    assert!(progress_fields("").is_none());
}

#[test]
fn last_percentage_wins() {
    let f = progress_fields("[download] 10% 20%% ETA").unwrap();
    assert_eq!(f.percent, "20");
}

#[test]
fn run_log_tracks_path_and_stderr() {
    let mut log = RunLog::new();
    assert!(log.on_stdout_line("[download]   5.0% of 1MiB at 1KiB/s ETA 00:10".to_string()).is_some());
    assert!(log.on_stdout_line("/tmp/a.mp4".to_string()).is_none());
    assert!(log.on_stdout_line("".to_string()).is_none());
    assert!(log.on_stdout_line("/tmp/b.mp4".to_string()).is_none());
    log.on_stderr_line("".to_string());
    log.on_stderr_line("ERROR: x".to_string());
    let out = log.finish(true);
    assert!(out.success);
    assert_eq!(out.file_path.as_deref(), Some("/tmp/b.mp4"));
    assert_eq!(out.stderr_lines, vec!["ERROR: x".to_string()]);
}

#[test]
fn stalled_run() {
    let out = stall_outcome();
    assert!(!out.success);
    assert_eq!(out.stderr_lines, vec![STALL_MARKER.to_string()]);
    assert!(out.file_path.is_none());
}
