# Codex Beacon

The logic behind Codex Beacon, a Windows desktop "island" that shows the state of
Codex tasks, written in Verus and proved against its contracts.

- `src/` is the verified library:
  - `config.rs`: enabling `hooks = true` in Codex's `config.toml`;
  - `hooks.rs`: installing the status hooks in Codex's `hooks.json`, and telling
    whether they are installed and verified;
  - `install.rs`: the install for the current user, as a sequence of decisions that
    the caller answers with file and environment work;
  - `sessions.rs`, `rollout.rs`, `status.rs`: tidying the task list, reading live
    activity from Codex rollouts, and task links;
  - `desktop.rs`, `startup.rs`, `storage.rs`: edge snapping of the window, the
    startup entry, file names, line endings and home directories;
  - `json.rs`, `text.rs`, `pairs.rs`: JSON values (through `serde_json`), text and
    small maps.
- `tests/` exercises the library.
- `app/` is the program around it: file and environment access, the window (Tauri),
  and the serialised forms of the library's types.

The event script that the hooks run (`codex-beacon-event.ps1`) is shipped beside the
executable; the program reads it from there when it installs the hooks.
