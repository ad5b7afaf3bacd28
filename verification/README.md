# zarr-lint

Inspect Zarr stores for structural and metadata problems, and format their
metadata conservatively. The library is written in Verus: its decisions
(which documents a store holds, the findings, the formatting plan, cloud
access fallback, exit codes and printed lines) are stated as contracts and
proved. Reading and writing files, HTTP and object-store requests, and
argument parsing are done by the binary in `app/`.

## Layout

- `src/` — the verified library (`zarr_lint_core`).
  - `scanner`, `remote`, `cloud`: what is discovered in a local directory, over
    HTTP(S) (a probe-by-probe state machine) and in a cloud object store.
  - `model`, `rule`: parsing the discovered documents and the six rules.
  - `lib.rs`: the sorted report, with laws that it is sorted, complete, and
    (`discovery_order`) independent of the order in which documents were found.
  - `format`: the `fmt` plan, with laws that formatting keeps every parsed
    value and that a second run changes nothing.
  - `cli`, `exit`: exit codes, the failure threshold and every line the
    command-line tool prints.
  - `json`, `json_codec`: the JSON value model; parsing and rendering go through
    `serde_json`, whose results the contracts name.
  - `text`, `sorting`, `permutation`: strings, a stable insertion sort and facts
    about rearranged sequences.
- `tests/` — tests of the library on concrete stores.
- `app/` — the `zarr-lint` binary: argument parsing, reading directories, HTTP
  and object stores, writing files, and printing.
