# repo_manager

Keeps local Git repositories in places that follow from where they are hosted:
`<authority>/<remote-path>`. Canonical repositories and forks live under
`<root>/clones`, development worktrees under `<root>/dev-worktrees`. It records
moves, forks, mirrors and successors, finds repositories with shared history, and
checks and repairs what it has recorded.

- `src/` is the library. It holds everything that is decided: how locators are read
  and placed, what the registry records, which changes are made to the disk and how
  they are undone, what is asked of forges and how their answers are read, what the
  daemon remembers, and how everything is reported. Every function is verified but
  for the wrappers around other crates and the standard library, whose contracts are
  believed: `random_bytes` (`client_id`), `moment` and `nanos_since` (`clock`),
  `styled_heading`, `styled_command`, `upper` and `lowered` (`help`), `json_lookup`,
  `quoted` and `schema_complaints` (`json`), `parse_url_text` (`locator`),
  `set_url_path` and `set_url_location` (`naming`), and `debug_of` (`text`). So are the
  contracts that `text` gives to two functions of the standard library.
- `app/` holds the programs `repo` and `repod`: the command line, files, processes,
  the database and the daemon's socket.
- `tests/` runs the library.

Plans of changes (`steps`) are lists of steps in stages; the programs carry them out
and undo a stage when one of its steps fails. What is stated of several functions
together stands in `placement`, `registry_laws`, `registry_rows`, `repair_laws`, and
beside the functions that it is about.
