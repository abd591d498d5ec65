# dst_admin_rust

A management panel library for Don't Starve Together dedicated servers, written
in Verus: every function under `src/` carries a `requires`/`ensures` contract
that Verus proves.

## Layout

- `src/` — the verified library.
  - Text and numbers: `text`, `numbers`, `validation`, `fs_path`.
  - Server files: `ini`, `server_ini`, `cluster_ini`, `dst_config`,
    `player_lists`, `lua_files`, `level`, `mod_setup`.
  - Processes and commands: `process`, `command`, `console`,
    `game_commands`, `game_status`, `player_query`.
  - Backups: `archive_meta` (the world `.meta` parser, backup names and
    listing), `restore` (archive checks, the restore plan and its steps).
  - Maps: `map`, `png`.
  - Accounts and sessions: `auth`, `session`.
  - Scheduling: `cron`, `models`.
  - Other: `statistics`, `lobby`, `http`, `config`, `logs`, `logging`.
- `tests/` — tests of the library.
- `app/` — a small command-line front end that does the file, process and
  clock work and calls the library for every decision.

Laws that relate several functions (read-back after write of the INI files,
the password file and `dst_config`, session lookups, level index edits, the
once-per-minute task claim, the restore plan) are public proof functions
whose names start with `lemma_`.
