# lab

Experiment runner for scheduler parameter sweeps: an experiment
specification is expanded into a matrix of cells (dataset × algorithm ×
configuration), each cell gets a stable run identity, and results are kept
in a SQLite registry that can be listed, ranked, exported and published.

The library under `src/` is verified with Verus. Its contracts state what
each function returns; the laws of the library (for example that a run key
does not depend on the dataset path, that a schedule's content hash does not
depend on the order of its placements, or that a run is skipped exactly
when the registry already holds it) are public proof functions.

| Path | Contents |
| --- | --- |
| `src/config.rs`, `src/sweep.rs`, `src/spec.rs` | run configurations, their slugs, sweep axes and their Cartesian product |
| `src/cell.rs` | matrix cells and their ids |
| `src/identity.rs` | run identity and run key |
| `src/schedule_hash.rs` | order-independent content hash of a schedule |
| `src/runner.rs`, `src/state.rs` | which cells run, skip or rerun; the checkpoint stream |
| `src/registry.rs`, `src/query.rs`, `src/order.rs`, `src/scoring.rs`, `src/table.rs` | registry queries, sort keys, scoring and table layout |
| `src/export.rs`, `src/artifact.rs`, `src/publish.rs` | export file names; a run's full schedule artifact and stored bodies without run fields; upload batching, retries and reply counts |
| `src/migrate.rs` | conversion of former run directories |
| `src/blocks.rs`, `src/observatory.rs` | dataset adapter decisions, including which block field is missing |
| `src/ranking.rs` | competition ranks within a dataset |
| `app/` | the `lab` command line: file, database and network I/O, the scheduler calls, floating-point metrics |
| `tests/` | tests of the library |
