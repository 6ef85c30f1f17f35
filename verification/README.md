# mongodb-utils

The verified core of a small self-hosted service that backs up and restores MongoDB
databases: saved connections, per-database schedules with retention, manual and
scheduled dumps into gzipped archives, and restores from the server or from an upload.

## Layout

- `src/` — the library, written in Verus and verified:
  - `storage/` — users, connections and schedules, with their invariants
    (unique user names and labels without regard to ASCII case, one schedule per
    connection and database);
  - `backup/jobs.rs` — the registry of running and recent jobs and its history bound;
  - `backup/runner.rs` — archive names and their parsing, the dump and restore tool
    invocations, progress lines, retention;
  - `backup/scheduler.rs` — which schedules are due;
  - `handlers/`, `auth.rs`, `config.rs` — the decisions behind the HTTP endpoints,
    sign-in and the settings;
  - `text.rs`, `clock.rs`, `ids.rs`, `error.rs` — strings, time, UUIDs, errors.
- `tests/` — tests of the library on concrete values.
- `app/` — the program around it: the HTTP server (actix-web), JSON files on disk,
  the MongoDB tools as child processes, password hashing, and the scheduler loop.
