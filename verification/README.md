# qi_tools

Developer tools for the Qi language, with their logic verified by Verus.

- `src/` is the verified library:
  - `text` — Unicode whitespace, trimming, `str::lines`-style line
    splitting, words, decimal rendering.
  - `formatter` — the whitespace-only formatter (`Formatter`), its
    configuration, the `CodeWriter`, the changed-line listing used by
    `qifmt --diff`, and the proved properties in `formatter::laws`
    (only whitespace changes, idempotence, lines neither joined nor
    split, no trailing whitespace, blank-line folding, empty output exactly
    for a blank source).
  - `bindgen` — which C prototypes become Qi `外部` declarations, the C to Qi
    type mapping, and the rendering of the declarations.
  - `checker` — diagnostics of a checked file, their counts, positions from
    byte offsets, and the human-readable report.
  - `doc` — Markdown documentation of a parsed Qi program and the output
    path of each document.
  - `profiler` — reading the profiler report table, matching the functions
    of two profiles or of several runs, terminal widths, truncation, flame
    graph layout, compiler arguments and the waiting loop's decisions.
- `tests/` exercises the library.
- `app/` holds the command-line programs (`qifmt`, `qicheck`, `qidoc`,
  `qi-bindgen`, `qiprof`): argument parsing, files, processes, libclang,
  the Qi compiler's parser, JSON and TOML, and the timing statistics, which
  are floating point.
