# codex_limit_monitor

A desktop monitor for Codex usage and ChatGPT Codex rate limits, with its decisions written in
Verus and proved against their contracts.

- `src/` is the verified library:
  - `models` — the data the monitor shows (live status, token breakdown, usage summary,
    snapshot, history).
  - `token_log` — the scanner that finds the `<kind>_token_count=<digits>` fields of a
    completed-response log line.
  - `local_usage` — token totals from completed-response logs, history windows, and the usage
    summary assembled from the local SQLite databases' answers.
  - `codex_rpc` — the JSON-RPC session with `codex app-server` as a state machine, its errors,
    and the order in which rate-limit buckets are shown.
  - `monitor` — what a refresh shows, and which notifications are due.
  - `settings` — badge position, settings clean-up, the usual Windows install places of
    Codex (such as `%APPDATA%\npm\codex.cmd`), and the choice of Codex executable.
  - `tray` — the tray tooltip without rate limits, and the tray menu's commands.
  - `text` — decimal spelling of integers, the value of a run of digits, string comparison.
- `app/` is the unverified shell around it: process spawning and line reading with `tokio`,
  SQLite queries with `rusqlite`, settings on disk, the floating-point percentages, and a
  terminal shell (`shell::run`) that stands where the desktop window, tray and notifications
  would: it prints snapshots and notifications and takes tray menu ids on standard input.
- `tests/` runs the library on concrete values.
