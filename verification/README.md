# devbar

The core of a developer-environment dashboard: git repository status,
listening dev ports, Docker containers, recently touched files, `.env` and
secret-file health, quick actions, dependency versions, cross-repository
search and threshold alerts.

- `src/` is the library, written in Verus. Every function there is verified
  against a contract stated over mathematical models (`Seq`, `Set`, `nat`),
  and the `law_*` proof functions state what holds across calls (ranking,
  deduplication, alerts shown once, fixes clearing issues, and so on).
  It works on plain values: command outputs, file contents, file names.
  JSON reading and writing is done by `serde_json` behind the trusted
  functions of `src/json.rs`; `src/text.rs` holds the character-level helpers,
  `src/clock.rs` the ISO 8601 date-times, and `src/manifests.rs` the readers of
  `Cargo.toml`, `pyproject.toml`, `requirements.txt` and `go.mod`.
- `app/` is the command-line program around it: it walks the watched folders,
  runs `git`, `netstat` / `lsof` / `ss`, `tasklist` and `docker`, reads and writes files,
  measures disks (floating point, so outside the library) and prints JSON.
- `tests/` exercises the library on concrete inputs.
