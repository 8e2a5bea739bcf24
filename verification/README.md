# ci — personal word-frequency manager

A Git-backed store of the words you type, kept per device and merged across
devices. The library (`src/`) is verified with Verus; the command-line
program (`app/`) reads and writes the files, talks to git, librime and inotify,
and hands the library plain values.

## Layout

- `src/time.rs` — instants as seconds and nanoseconds since the epoch.
- `src/db/` — entries, devices and the device registry, the database, and the
  weighted merge (`merge.rs`) with its laws (`merge_laws.rs`).
- `src/sync/trigger.rs` — the cooldown between automatic syncs, with its laws.
- `src/cli/` — the deciding part of each command; `daemon.rs` is the daemon's
  step function (event in, action out).
- `src/ffi/` — when to initialize librime, and how to read its sync result.
- `src/text.rs` — splitting text, decimal numerals, building strings.
- `src/adapter/` — reading and writing Rime's user dictionary text
  (`code\tword\tc=N` lines) and scanning repository text for Chinese words
  (front matter and code blocks left out, lines cut by jieba), with their laws (`rime_laws.rs`, `scan_laws.rs`).
- `app/` — `main`, file formats (serde), git, inotify, librime calls.
- `tests/` — tests of the library.

## Merge

Each remote entry is combined into the first local entry with the same code
and word, or appended. A combined frequency is the mean of the two,
weighted by each device's entry count, rounded to the nearest integer
(halves up); the later update time and the local previous word (or the
remote one where the local has none) are kept.
