# aevia

The compiler library of Aevia, a scientific-computing language whose types
carry physical dimensions. The library is written in Verus: every function
states its behaviour in `requires` / `ensures` over mathematical models, and
Verus proves the code against those contracts.

## Layout

- `src/` — the verified library.
  - `types/` — the dimension algebra (`dim`), the scoped type environment
    (`env`), type errors and the checker, whose reported error codes are
    stated exactly by spec functions over the parsed file.
  - `parser/` — the source parser. `grammar` and `item_grammar` define the
    grammar as spec functions over the text; the parsing functions in `lex`,
    `expr`, `items` and `docs` are proved to return exactly what those
    functions describe.
  - `fmt`, `doc/` — the formatter and the Markdown / HTML documentation
    renderers, each tied to a spec function giving the text of every node.
  - `macro_expand`, `macro_bodies`, `macro_laws` — the `macro_rules!`
    expansion pass, its walk through inline module bodies, and the proof that
    it leaves no invocation behind when no macro expands to one.
  - `modules/` — module paths, dependencies and `use` resolution.
  - `fusion`, `fusion_laws` — the kernel partition of a graph, and the
    proof that no node lies in two kernels.
  - `lint`, `lowering`, `ops`, `manifest`, `decimal`, `shell`,
    `test_runner`, `commands`, `project`, `diagnostics`, `text`.
- `tests/` — tests of the library, run against the compiled crate.
- `app/` — the command-line program: file and terminal I/O, logging, error
  reports, and the graph building and JIT execution done by the
  `rssn-advanced` backend.

Outside crates reached from the verified code (`rust_decimal`, `toml`,
`indexmap`) are called through small trusted wrappers whose contracts state
what those crates document; everything above them is proved.
