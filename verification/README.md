# preload_stores

The model of a readahead daemon: which executables and maps it knows, how they belong together,
and the rules by which stale entries are pruned; and the rules by which it observes which files
are opened by whom.

- `src/` is the library. Every function states its contract, and Verus proves it. The exceptions
  are the small functions in `fx.rs`, `text.rs` and `observation/tables.rs` that call the standard
  library or `rustc_hash`: their contracts are believed, as the comment above each says.
  - `stores` holds executables, maps, who maps what, the edges of the model, and pruning.
    `stores/model.rs` says what pruning leaves, and `stores/laws.rs` what holds of it.
  - `observation` decides which filesystems to mark, which notices of opened files to record, and
    what to report of them.
  - `config` holds the retention settings, and `domain` and `paths` the values of all these.
- `tests/` runs the library.
- `app/` reads and writes the system around it: fanotify, `/proc`, the disk, stored settings.
