# goperf

Verified performance detectors for Go source files, written in Verus.

Each detector `detect_perf_N` reads one parsed Go file (`ParsedUnit`: its
path, its text and a flattened syntax tree) together with the facts gathered
from it (`GoPerfFacts`: calls, assignments, loop ranges, literal ranges and a
text index) and appends its findings (rule, 1-based line, byte column,
message) to an output vector. Every detector's contract states exactly which
findings it appends, over spec functions on the file's bytes.

Layout:

- `src/text.rs`: byte-string helpers (search, trimming, case folding) and
  their specifications.
- `src/model.rs`: the data model (units, syntax tree, facts, findings) and
  the shared reporting machinery (`emit`, `hits`, `capped`, `report`,
  `findings_for_file`, and the start-order visit of calls `by_start`).
- `src/common.rs`: hot-path and request-handler heuristics shared by the
  detectors.
- `src/domains/`: the detectors, grouped by area (loop allocations, parsing
  in loops, concurrency, general performance, data access, Gin, and the
  standard-library misuse families).
- `src/laws.rs`: properties that hold across detectors, stated and proved.
- `tests/`: executable tests of the detectors on small Go samples.
- `app/`: turns a `tree_sitter` parse tree into the library's syntax tree.
