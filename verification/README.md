# anigit

Git, but for your anime-watching history: a local-first command-line tool
whose commits record what you watched (status, episode progress, score,
rewatch count) for entries of an anime catalog.

The decisions of every command are a library verified with Verus; the
program around it reads and writes files, talks to the terminal and the
network, and hands the library plain values.

## Layout

- `src/` — the verified library.
  - `model.rs` — commits, changes, staged entries, repo settings.
  - `replay.rs` — replaying history into per-entry state (last set wins).
  - `repo.rs` — the `.anigit/` paths, ref names, reflog reasons.
  - `commands/` — commit and amend, branches and tags, three-way merge,
    blame, clone/fork rules, log and reflog text, remote stubs.
  - `revert.rs` — the safe undo.
  - `sync.rs` — planning a catalog refresh from checkpoints and deltas.
  - `catalog.rs` — catalog rows, delta columns, staleness.
  - `search.rs`, `form.rs`, `input.rs` — the interactive screens' state
    machines, layout and text.
  - `render.rs`, `order.rs`, `text.rs` — report text, key order, strings.
  - `tree.rs` — the generated folder view's plan.
  - `uninstall.rs`, `cli.rs` — install detection, the command line.
- `tests/` — tests of the library.
- `app/` — the `anigit` program: files, SQLite, HTTP, the terminal.
