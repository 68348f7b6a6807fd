# niri-session-manager

A session manager for the niri Wayland compositor: it saves the window
layout (event-driven, debounced, with a periodic fallback) and restores it
once per boot, spawning only the windows that are missing.

The decisions are a library whose behaviour is stated in Verus contracts
and proved; the program around it does the I/O.

## Layout

- `src/` — the verified library (`niri_session_manager`):
  - `restore.rs` — idempotent restore planning (match running windows by
    workspace, cap each app at `saved − running`), restore-window
    preparation, retry backoff, the boot gate and its marker, window
    placement decisions; laws on re-running a restore.
  - `session.rs` — the session model, capture filters (skip list,
    single-instance de-duplication), backup naming, ordering and rotation.
  - `terminal.rs` — terminal profiles, `sh` quoting (with a read-back law),
    restore and spawn commands, the restore shell.
  - `proc.rs` — the process-tree walk that finds a terminal's foreground
    command, as a state machine answered query by query, plus `/proc`
    text parsers.
  - `save.rs` — the save loop's decisions: which events call for a save,
    the debounce step (with laws on bursts, stream close and shutdown),
    reconnect backoff (with its cap law), fallback mode, log rate limits.
  - `service.rs` — service dispatch, health-check staleness, protocol probe.
  - `config.rs`, `niri.rs`, `span.rs`, `text.rs` — configuration, the
    niri data the logic reads, time spans, text utilities.
- `tests/` — tests of the library on concrete values.
- `app/` — the executable: command line, niri IPC, `/proc` and file I/O,
  tokio tasks, serde forms of the session file and app config.

## Trusted boundary

Five small wrappers around std functions are believed, not proved:
`String::push`, `str::to_lowercase`, `String::from_utf8_lossy`,
`Path::parent` and `Path::join`. Each states in its doc comment what its
contract claims.
