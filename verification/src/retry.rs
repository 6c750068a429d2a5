//! Running yt-dlp again after a transient failure, with a linear backoff, and
//! what is reported once the last attempt has ended.
use vstd::prelude::*;
use std::time::Duration;
use crate::classify::{classify_error, error_message, is_transient_error, transient};
use crate::classify::STALL_MARKER;
use crate::text::{has_sub, join, views};

verus! {

/// The value of `Duration::from_secs(secs)`.
pub uninterp spec fn secs_duration(secs: u64) -> Duration;

/// Calls `Duration::from_secs`. The contract names the result
/// `secs_duration(secs)`: the same number of seconds gives the same duration.
#[verifier::external_body]
fn duration_from_secs(secs: u64) -> (d: Duration)
    ensures
        d == secs_duration(secs),
{
    Duration::from_secs(secs)
}

/// How many times yt-dlp is run at most, and the delay unit of the backoff
/// (after attempt `k` fails, the next one starts `k` units later).
#[derive(Clone, Copy, Debug)]
pub struct RetryConfig {
    pub max_attempts: u32,
    pub base_delay: Duration,
}

impl Default for RetryConfig {
    /// Three attempts, three seconds apart at first.
    fn default() -> (r: Self)
        ensures
            r.max_attempts == 3,
            r.base_delay == secs_duration(3),
    {
        RetryConfig { max_attempts: 3, base_delay: duration_from_secs(3) }
    }
}

/// What to do after an attempt has ended.
pub enum RetryStep {
    /// Report this attempt's outcome; no more attempts.
    Finish,
    /// Tell the user `message`, wait `delay_factor` times the base delay, and
    /// run attempt number `next_attempt`.
    Retry { next_attempt: u32, delay_factor: u32, message: String },
}

/// Another attempt follows attempt `attempt` (of at most `max_attempts`):
/// it failed, attempts are left, and the failure is transient.
pub open spec fn retries(success: bool, lines: Seq<Seq<char>>, attempt: u32, max_attempts: u32) -> bool {
    !success && attempt < max_attempts && transient(lines)
}

/// The step after attempt number `attempt` ended with `success` and the
/// stderr lines `stderr`.
pub fn retry_step(success: bool, stderr: &[String], attempt: u32, retry: &RetryConfig) -> (r: RetryStep)
    ensures
        match r {
            RetryStep::Finish => !retries(success, views(stderr@), attempt, retry.max_attempts),
            RetryStep::Retry { next_attempt, delay_factor, message } => {
                &&& retries(success, views(stderr@), attempt, retry.max_attempts)
                &&& next_attempt == attempt + 1
                &&& delay_factor == attempt
                &&& message@ == error_message(views(stderr@))
            },
        },
{
    if success || attempt >= retry.max_attempts || !is_transient_error(stderr) {
        return RetryStep::Finish;
    }
    RetryStep::Retry {
        next_attempt: attempt + 1,
        delay_factor: attempt,
        message: classify_error(stderr),
    }
}

/// Law: however the attempts fail, starting from attempt 1 no attempt beyond
/// `max_attempts` (or beyond the first, when `max_attempts` is 0) is ever run:
/// an attempt that follows another carries a number at most `max_attempts`.
pub proof fn lemma_attempts_bounded(success: bool, lines: Seq<Seq<char>>, attempt: u32, max_attempts: u32)
    requires
        retries(success, lines, attempt, max_attempts),
    ensures
        attempt + 1 <= max_attempts,
{
}

/// Law: a successful attempt is never repeated, and neither is a failure that
/// is not transient.
pub proof fn lemma_no_retry_after_success_or_lasting_failure(
    success: bool,
    lines: Seq<Seq<char>>,
    attempt: u32,
    max_attempts: u32,
)
    requires
        success || !transient(lines),
    ensures
        !retries(success, lines, attempt, max_attempts),
{
}

/// Law: a failure whose stderr, joined by spaces, holds neither the stall
/// marker nor `"HTTP Error 429"` nor `"Too Many Requests"` is never retried,
/// whatever attempt it was and however many are allowed.
pub proof fn lemma_only_stalls_and_rate_limits_retry(
    success: bool,
    lines: Seq<Seq<char>>,
    attempt: u32,
    max_attempts: u32,
)
    requires
        !has_sub(join(lines, " "@), STALL_MARKER@),
        !has_sub(join(lines, " "@), "HTTP Error 429"@),
        !has_sub(join(lines, " "@), "Too Many Requests"@),
    ensures
        !retries(success, lines, attempt, max_attempts),
{
}

/// What is reported once a download has ended.
pub enum DownloadOutcome {
    /// It succeeded; the path of the produced file, when yt-dlp printed one.
    Done { file_path: Option<String> },
    /// It failed; the message for the user.
    Failed { message: String },
}

/// The report for a download that ended with `success`, the stderr lines
/// `stderr` and the file path `file_path`.
pub fn download_outcome(success: bool, stderr: &[String], file_path: Option<String>) -> (r: DownloadOutcome)
    ensures
        success ==> r == (DownloadOutcome::Done { file_path }),
        !success ==> (r matches DownloadOutcome::Failed { message } && message@ == error_message(
            views(stderr@),
        )),
{
    if success {
        DownloadOutcome::Done { file_path }
    } else {
        DownloadOutcome::Failed { message: classify_error(stderr) }
    }
}

} // verus!
