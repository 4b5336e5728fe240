# cargo-geiger, verified

Statistics about the use of `unsafe` in a Rust crate and its dependencies.
The library under `src/` is verified with Verus; the program under `app/`
asks cargo and the compiler about the workspace, reads the source files,
and prints what the library makes of them.

## Layout

- `src/geiger.rs`: counting of `unsafe` functions, expressions, impls,
  traits and methods in one parsed source file, and whether it forbids
  unsafe code.
- `src/scan.rs`, `src/scan/`: per-package statistics, the source files of a
  package, the dependency information files and command lines of `rustc`,
  the table and report of a scan.
- `src/graph.rs`, `src/tree.rs`: the dependency graph of a package and the
  tree walk that prints it.
- `src/format.rs`, `src/format/`: symbols, colours, package line patterns,
  print configuration and table rows.
- `src/readme.rs`: updating the report section of a README.
- `src/cli.rs`, `src/source.rs`: what the compiler's output and a package
  id's source text say.
- `src/report.rs`: the counters and report types.

Packages and source files are identified by integer keys; `app/` keeps the
tables that map them back to package ids and paths.
