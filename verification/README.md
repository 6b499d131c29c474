# sentinel

Bookkeeping for a desktop workspace in which several terminal agents work on
copies of one project: workspaces, agent sessions and terminal tabs, their
lifecycles, sandbox copies and how their changes flow back, command history,
snapshots and the records kept in SQLite.

The library under `src/` is written in Verus. Every function carries a
contract over a mathematical model (`Seq`, `Map`, views of the data types),
and Verus proves the code against it. Laws that relate several functions are
stated as public proof functions named `law_*`.

## Layout

- `src/text.rs`, `src/order.rs`, `src/keyed.rs`: text, ordering and a keyed
  list used throughout. `Keyed` stands where a map keyed by text would stand
  (the trackers of the changes manager, file hashes, merged listings): it is
  a list of pairs with distinct keys whose view is a `Map`. The text-keyed
  `HashMap` and `BTreeMap` that vstd specifies give no usable contract for
  `String` keys, so a map of our own, proved against its `Map` view, keeps
  every contract over it exact.
- `src/model.rs`, `src/rows.rs`: the data model and the stored rows, with the
  names the database uses.
- `src/paths.rs`, `src/git_status.rs`, `src/diff.rs`: paths inside a
  workspace, `git status` output, line diffs.
- `src/workspaces.rs`: the registry of workspaces and the active project.
- `src/lifecycle.rs`: sessions, tabs and the IDE terminal from start to end.
- `src/sandbox.rs`, `src/changes.rs`: sandbox copies, what changed in them and
  how changes of several agents are merged.
- `src/history.rs`, `src/activity.rs`, `src/records.rs`, `src/payload.rs`,
  `src/persistence.rs`, `src/planning.rs`, `src/storage.rs`, `src/platform.rs`:
  command history, activity log, audit and snapshots, start-up payloads,
  reading stored rows, planning of new sessions and terminals, backups.
- `src/hashing.rs`, `src/json.rs`: the calls into `sha1`, `base64` and
  `serde_json`, each behind a small function whose contract is trusted.

`app/` is the Tauri application around the library: commands, the SQLite
repositories (`sqlx`), pseudo-terminals (`portable-pty`), the disk and
process I/O. It expects the SQL migrations in a `migrations` folder among the
application's resources.
