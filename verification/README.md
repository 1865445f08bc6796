# clipped

A workspace-aware, file-scoped `cargo clippy` wrapper that filters diagnostics, written
in Verus.

- `src/` is the verified library: the path model (`paths`, `order`), the attribution of
  files to workspace packages (`packages`), the resolution of the command-line files and
  the run settings (`context`, `config`, `cli`), the file matcher (`matcher`), the
  `cargo clippy` command line (`clippy`) and the decisions on each diagnostic
  (`diagnostics`). File-system queries (`filesystem`) are the only trusted calls.
- `app/` is the command: argument parsing, `cargo metadata`, loading the configuration
  file and environment, running `cargo clippy` and printing.
- `tests/` exercises the library on concrete values.
