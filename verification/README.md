# stylus_profiler

Size, structure and gas analysis of WebAssembly binaries for Arbitrum Stylus
contracts, as a verified library with a thin command-line front end.

- `src/analyzer.rs` — the analysis (`analyze`, `summarize`), the ranking of
  functions by size and the JSON report (`to_report`), with their laws.
- `src/wasm.rs` — the trusted calls into `wasmparser`.
- `src/size.rs`, `src/gas.rs` — the Stylus size limits and the gas estimate.
- `src/compare.rs`, `src/display.rs` — build comparison and optimization hints.
- `src/text.rs` — decimal rendering of integers.
- `app/` — argument parsing, file reading, colored tables and JSON output.
