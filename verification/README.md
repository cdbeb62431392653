# codex_taskloop

A task loop for Codex: an MCP server that starts, lists, resumes, renames and
deletes tasks; a stop hook that, on every stop attempt, decides whether the
agent goes on with the task's prompt; and an installer that registers both.

## Layout

- `src/` is the library, verified with Verus. Every public function states in
  its `ensures` what it computes, over spec functions on plain values:
  - `state_data`, `task_state`, `frontmatter`: the `state.md` format, written
    and read back (with proved round trips);
  - `meta`: the `meta.json` index (each task once, by name and project);
  - `tools`, `listing`, `order`, `paths`, `config`: the MCP tools' decisions;
  - `candidates`, `stop_hook`, `rollout`, `matching`, `history`: the stop
    hook's choice of task and its decision for it;
  - `admin`, `config_text`, `hooks_json`: the installer's edits of
    `config.toml` and `hooks.json`;
  - `text`, `numbers`, `timestamps`: the text handling the rest is built on.
- `app/` holds the programs around the library: the MCP server over standard
  input and output, the stop hook and the installer. It does the file and
  network I/O, locking, JSON and TOML, and hands the library plain values.
- `tests/` runs the library on concrete values.

The calls into `regex`, `chrono` and `rand` go through small trusted wrappers
whose contracts say what those crates return; everything else in `src/` is
proved.
