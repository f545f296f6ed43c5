# udown

A tiny self-hosted YouTube video/audio downloader: an actix-web server and a
command-line tool around `yt-dlp` and `ffmpeg`. The decisions are made in a
library verified with Verus; the binary performs the I/O.

## Layout

- `src/` — the verified library (crate `udown`)
  - `cli.rs` — argument parsing into `Command`, with usage text
  - `config.rs` — `AppConfig` from the host/port/directory settings
  - `error.rs` — `AppError`, its HTTP status and message
  - `domain/media.rs` — `Quality` presets, yt-dlp arguments, content types
  - `domain/naming.rs` — output template, display names, choosing the
    finished file, collision names
  - `domain/validation.rs` — accepting only `http(s)` YouTube URLs
  - `services/ytdlp.rs` — download arguments, reading `--dump-json` and
    error output, locating and describing the finished file
  - `web/dto.rs` — request and response shapes, `Content-Disposition`
  - `text.rs` — character-level string operations with contracts
- `app/` — the binary: environment, subprocesses, file system, HTTP
- `tests/` — tests of the library

Each public function states its result in its `ensures` clause over the
views of its arguments; the library's laws (that the display name undoes
the naming on disk, that the choice of the finished file ignores directory
order, that numbered names keep the extension, and others) are proof
functions next to the code they speak of.
