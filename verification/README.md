# mptube (verified core)

The download logic of mptube — a yt-dlp/ffmpeg front end that runs as a web
server or as a desktop app — written in Verus. Every function of `src/` is proved against its contract,
except six small trusted wrappers whose contracts are believed.

- `src/` — the verified library (see the module list in `src/lib.rs`). Calls
  into `url`, `str::to_lowercase`/`to_uppercase`, `String::push`,
  `Duration::from_secs` and `PathBuf::from` go through those trusted
  wrappers, whose contracts say only that each result is what the call
  gives for its arguments.
- `tests/` — tests run against the compiled library.
- `app/` — the web server (axum): processes, sockets, the file system,
  JSON and IP-address parsing, around the library's decisions.
