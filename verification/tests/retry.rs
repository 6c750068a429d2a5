use mptube::retry::{download_outcome, retry_step, DownloadOutcome, RetryConfig, RetryStep};
use std::time::Duration;

fn lines(v: &[&str]) -> Vec<String> {
    v.iter().map(|s| s.to_string()).collect()
}

#[test]
fn default_config() {
    let c = RetryConfig::default();
    assert_eq!(c.max_attempts, 3);
    assert_eq!(c.base_delay, Duration::from_secs(3));
}

#[test]
fn retries_transient_failures_until_the_limit() {
    let c = RetryConfig::default();
    let l = lines(&["ERROR: HTTP Error 429: Too Many Requests"]);
    match retry_step(false, &l, 1, &c) {
        RetryStep::Retry { next_attempt, delay_factor, message } => {
            assert_eq!(next_attempt, 2);
            assert_eq!(delay_factor, 1);
            assert_eq!(message, "Rate limit (429) — aguarde alguns minutos e tente novamente");
        }
        RetryStep::Finish => panic!("expected a retry"),
    }
    assert!(matches!(retry_step(false, &l, 2, &c), RetryStep::Retry { next_attempt: 3, delay_factor: 2, .. }));
    assert!(matches!(retry_step(false, &l, 3, &c), RetryStep::Finish));
}

#[test]
fn no_retry_on_success_or_lasting_failure() {
    let c = RetryConfig::default();
    assert!(matches!(retry_step(true, &lines(&["HTTP Error 429"]), 1, &c), RetryStep::Finish));
    assert!(matches!(retry_step(false, &lines(&["ERROR: Private video"]), 1, &c), RetryStep::Finish));
}

#[test]
fn zero_attempts_never_retries() {
    let c = RetryConfig { max_attempts: 0, base_delay: Duration::from_secs(1) };
    assert!(matches!(retry_step(false, &lines(&["HTTP Error 429"]), 1, &c), RetryStep::Finish));
}

#[test]
fn outcomes() {
    match download_outcome(true, &[], Some("/x.mp4".to_string())) {
        DownloadOutcome::Done { file_path } => assert_eq!(file_path.as_deref(), Some("/x.mp4")),
        _ => panic!(),
    }
    match download_outcome(false, &lines(&["ERROR: [x]: bad"]), None) {
        DownloadOutcome::Failed { message } => assert_eq!(message, "bad"),
        _ => panic!(),
    }
}
