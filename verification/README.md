# session_repair

Diagnosis and repair of Codex sessions: the session index, the threads table, families of
sessions and their branches, copies of sessions for another provider, and the session list of an
assistant in an editor.

- `src/` is the library. It does no input or output: every function takes what was read as plain
  values, and its contract says exactly what it answers. Laws that relate several functions are
  public proof functions whose names begin with `law_`.
- `app/` reads files and databases, asks the library, and carries out what it decided. What the
  application around it provides (the family store, the journal, Desktop, the Codex app server)
  comes in through the trait `Host`.
- `tests/` runs the library on examples.

Operations that change several places are planned as a list of steps (`src/steps.rs`); what steps
do to the sessions is stated in `src/effects.rs`. `app/` takes them in order inside one
transaction of the state database. Where one fails it does not go on: the journal that the host
provides undoes those that were taken, and nothing in this project proves that it does.

JSON is read and written with `serde_json`, TOML is read with `toml`, and points in time are read
and written with `chrono`. The few items that call these crates say above themselves what is
taken for granted of them.
