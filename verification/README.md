# heteroprof

Builds a program dependence graph out of a CUDA profiling trace and measures how
the traced device's time splits between computing and transferring memory.

## Layout

- `src/` — the verified library.
  - `callback`, `activity`, `cudnn`, `cublas`, `model`: the records of a trace.
  - `document`: a trace as the lists of its records, and which list a record kind
    goes to.
  - `cuda`: the runtime state replayed from a trace — threads and the launches they
    configure, allocations ordered by address, and the values written into them.
  - `pdg`: the dependence graph. `replay` states, record by record, what building
    the graph does; `pdg` builds it (`from_document`) and searches it for its longest
    path; `paths` states what that search computes (the longest path on graphs of
    separate edges, which are the graphs built from traces, but not on general graphs:
    on a chain it gives 0); `shape` proves what the graphs
    built from traces look like and what their longest path is.
  - `statistics`: the time covered by computations only, by transfers only, and by
    both.
  - `bindings`: the contracts under which the library calls `petgraph`,
    `priority-queue` and `intervallum`.
- `tests/` — tests of the library on concrete traces and graphs.
- `app/` — reading traces with `serde_json` and printing results.
