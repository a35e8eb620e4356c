# shiren

Shiren (試練) is a test runner for Neovim with language-specific adapters
(cargo test, pytest, Jest/Vitest). This crate holds its logic as a library
verified with Verus, and a thin Neovim-facing shell around it.

## Layout

- `src/` — the verified library.
  - `text.rs`: string and line handling (`str::lines`, `trim`, search,
    joining) stated over `Seq<char>`.
  - `results.rs`: `TestStatus`, `TestResult`, `TestSuite`, their display
    texts and the summary line; laws on how the counts add up.
  - `adapters/`: finding tests in source text, building commands and reading
    each tool's output (`cargo.rs`, `pytest.rs`, `jest.rs`), with laws on
    where found tests come from and on reading combined stdout/stderr.
  - `json.rs`: the JSON tree the Jest report reader works on; serde_json
    parses, the library reads.
  - `detect.rs`: choosing a framework from a directory's marker files or a
    file's extension.
  - `runner.rs`: the text an adapter parses, the suite's duration, and the
    printable form of a command.
- `app/` — the Neovim plugin entry point (nvim-oxi), the `TestAdapter`
  trait with its floating-point durations, process execution and the
  file-system walk.
- `tests/` — tests of the library, run against the compiled crate.
