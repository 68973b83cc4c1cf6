# cntryl_tools

Checks for Rust repositories, verified with [Verus](https://github.com/verus-lang/verus):

- `validate-tests` reads Rust tests and reports those whose structure, oracles or
  determinism a policy does not accept;
- `generate-inventory` lists tests and benchmarks;
- `summarize-benchmarks` compares benchmark results with a baseline and writes a report;
- `validate-docs`, `validate-benchmarks`, `check-module-sizes` and `test-watchdog` check
  the rest of a repository.

## Layout

- `src/` is the library. The contract of each of its functions says what it returns, over
  the views of its arguments, and Verus proves it; a method of an `Order` or another trait of
  the library has the contract that stands in the trait.
  - `validate_tests/`: `parse` turns source text into a tree of plain nodes, `visitor`
    and `rust` gather the facts of each test from that tree, `rules` derives findings
    from the facts, `report` writes them down; `laws`, `independence` and `counts` state
    what holds of all of them.
  - `summarize_benchmarks/`: `adapters` read benchmark results, `compare` and `classify`
    set them against a baseline, `sweep` groups them, `report` writes the summary.
  - `repository_checks/` and `generate_inventory` hold the other commands.
  - `text`, `seqs`, `order`, `names`, `select`, `paths`, `patterns`, `json` and `copies`
    are shared by all of them.
- `app/` is the program around the library: arguments, files, processes and clocks.
- `tests/` runs the library on concrete values.

## What is trusted

Calls into `syn`, `proc_macro2`, `quote`, `regex`, `sha2`, `serde_json` and a few functions
of std stand behind small functions marked `external_body`, each with a comment that says
what is claimed of the call. Floating-point numbers are held as their bits: the library
compares and negates them itself, while arithmetic, formatting and parsing are handed in
by the caller.
