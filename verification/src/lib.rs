//! mptube: the logic of a video/audio downloader built on yt-dlp and ffmpeg,
//! with its contracts proved by Verus.
//!
//! - `text`: the string operations everything else is stated with.
//! - `classify`: the user-facing message for a failed download.
//! - `command`: yt-dlp's format selection and argument lists.
//! - `progress`: reading yt-dlp's output while it runs.
//! - `retry`: retrying transient failures and the final report.
//! - `formats`: choosing the formats offered from yt-dlp's list.
//! - `domains`: the allow-list of URLs.
//! - `server`: admission, per-client limits and the web server's decisions.
//! - `config`: the server's settings and request bodies.
//! - `desktop`: where the desktop app finds its bundled binaries.
use vstd::prelude::*;

pub mod text;
pub mod classify;
pub mod command;
pub mod config;
pub mod desktop;
pub mod domains;
pub mod formats;
pub mod progress;
pub mod retry;
pub mod server;

verus! {
}
