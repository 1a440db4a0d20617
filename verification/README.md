# pkgtrace

A package tracker for Termux: it records which packages are installed by which
package manager (`pkg`, cargo, pip, npm, gem, or by hand), reads the activity log to
find packages that are never used, follows dependency lists to protect what used
packages need, and reports, compares and cleans up.

## Layout

- `src/` — the library, verified with Verus. The tool's decisions on the data it reads are here,
  with a contract stated over mathematical models (`Seq`, `Map`, views of each type):
  - `tracker.rs` — the tracker state, unused-package detection, protection, install
    and removal bookkeeping;
  - `graph.rs`, `walk.rs` — dependency lookups, closures, trees, cycles and chains;
  - `analyzer.rs`, `stats.rs` — reports, risk analysis, comparisons and statistics;
  - `scanner.rs`, `show.rs`, `utils.rs` — reading the printouts of `pkg`, `dpkg`,
    `pip` and `cargo`, and writing CSV, Markdown and DOT;
  - `cache.rs`, `config.rs`, `logger.rs`, `models.rs` — the package cache, the
    settings, the activity log and the shared types;
  - `select.rs`, `sort.rs`, `strmap.rs`, `text.rs`, `version.rs` — selections,
    stable sorting, a string-keyed map, text helpers and version comparison.
- `app/` — the command line: argument parsing, files, the clock and the package
  managers. It hands the library plain values and prints what comes back.
- `tests/` — tests of the library on concrete values.

Calls into `regex`, `sha2`, `chrono`, `serde_json` and `home` made by the library go
through small trusted wrappers whose contracts name what the crate computes.
