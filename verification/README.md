# machunt

A local file-name search engine for macOS: it indexes the names of files and
folders in SQLite (with an FTS5 trigram table), keeps the index current from
FSEvents, and answers substring, wildcard/regex and fuzzy queries.

The library (`src/`) holds the engine's logic with Verus contracts and proofs:

- `text`, `strings`, `paths`, `sorting` — strings as character sequences,
  `std::path`-style path components, and stable ordering.
- `filters`, `regex_support`, `search` — exclusion rules and wildcard patterns
  (through the `regex` crate).
- `query` — the SQL each search runs, the keys rows are stored under, and the
  stored settings (through `serde_json`).
- `engine`, `builder`, `watcher` — turning index rows into results, walking
  roots, and what each file-system event means for the index.
- `apps`, `file_actions`, `gui`, `utils`, `model` — application groups, file
  commands, the desktop settings and responses, logging and options.

`app/` is the command-line program around it: the SQLite connection
(`rusqlite`), directory walks (`walkdir`, `crossbeam`), the FSEvents stream,
the log files and argument parsing (`clap`).

The desktop shell (its windows, menus, tray icon and Quick Look panel) is not
part of this crate; the decisions it makes — settings, responses, menu and
tray labels, which paths a command acts on — are in `gui` and
`file_actions`.
