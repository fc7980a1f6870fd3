# helix_wasm

The verified core of a browser-hosted Helix editor, written in Verus.

- `src/` — the library; every function carries a contract that Verus proves.
  - `types`, `path`, `sort`, `walk`: plain filesystem data, Unix path
    components and normalization, stable sorting by name, walk entries.
  - `memory`: the in-memory filesystem; each operation is specified over the
    store as a sequence of path-keyed entries.
  - `registry`: the registered drivers and the active one; operations answer
    from the in-memory store or hand the work to the host.
  - `laws`: properties that relate several filesystem operations.
  - `channel`: the state machine of the single-threaded channel.
  - `keys`: browser key events and the editor's input queue.
  - `ansi`: the ANSI terminal encoder.
  - `grammar`: the tree-sitter ABI check and the grammar cache.
  - `term`, `time`: true-color and file-picker decisions; timer delays.
- `tests/` — tests of the library on concrete values.
- `app/` — the host side: the global registry, `std::fs` and `ignore` for
  the host driver, channel and timer handles holding wakers, JavaScript glue.
