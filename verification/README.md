# tmux_manager

`tm` keeps named configs of project entries (directories, window layouts,
commands) in a TOML store and starts or kills one tmux session per entry.

The library under `src/` is written in Verus and verified: pattern matching of
entry keys (globs and fuzzy matching), resolution of entries into session names
and directories (including worktrees and command-line overrides), the tmux
argument lists and the plans for starting and killing sessions, the edits to
the store, the legacy-configuration conversion and merge, and the `ls`
listings. Each public function states its result in its `ensures`; the laws
that relate several functions are public proof functions named `law_*`.

- `src/text.rs`, `src/paths.rs`: character and path helpers.
- `src/ordered.rs`: the insertion-ordered maps of the store, declared for Verus.
- `src/model.rs`: the store, entries and their resolution.
- `src/matcher.rs`, `src/select.rs`: choosing entries by pattern; listings.
- `src/tmux.rs`: tmux arguments, start and kill plans, session names.
- `src/config.rs`, `src/migrate.rs`: store edits and legacy migration.
- `src/cli.rs`, `src/completions.rs`, `src/error.rs`: command values, completion
  candidates, errors and their messages.

`app/` is the program around it: argument parsing, reading and writing the
TOML and JSON files, running tmux and the editor, shell completion scripts and
the JSON schema of the configuration file.
