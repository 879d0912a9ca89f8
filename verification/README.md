# qirtoqasm_core

Translates QIR (LLVM textual IR) into OpenQASM 3 programs for Amazon
Braket. The library under `src/` is written in Verus: every function
carries a `requires` / `ensures` contract, and Verus proves each body
against it.

## Layout

- `src/ir/` — the IR model and the `.ll` parser. `parse_module` is
  specified against `spec_parse_module`, a line-by-line description of
  the text (continuation lines, labels, attribute groups).
- `src/signatures.rs` — `declare` / `define` signature extraction.
- `src/profile.rs` — which builder lowers each QIR function; the base
  profile.
- `src/symbols.rs` — SSA bindings, register sizes, pointer aliases and
  scalar slots. These tables, and the other string-keyed maps of the
  lowering and of the structuring pass, are vectors of entries with a
  specified lookup and insert, in place of `HashMap` / `BTreeMap` /
  `HashSet`: with `String` keys vstd's specifications of those maps give
  nothing to prove lookups against.
- `src/boolean.rs`, `src/builders.rs` — lowering of classical
  instructions and of calls.
- `src/cfg.rs` — structuring of the lowered blocks into `if` / `while`
  statements; every rewrite rule has a matching spec, and `lower_cfg`
  states the whole chain of rewrites it performed.
- `src/translator.rs` — block lowering, program assembly and the
  `// generated-by:` line; `translation_of` states what a translated
  program is.
- `src/oq3/` — the OpenQASM 3 AST and its printer, specified piece by
  piece.
- `src/abi.rs` — the status code of each error kind and the check of a
  caller's options header, used by the C interface in `app/`.
- `src/ordered_map.rs` — the `indexmap` maps the library keeps, behind
  a small set of trusted wrappers.
- `app/` — the C ABI, the Python module and float formatting, which stay
  outside the verified library.
- `tests/` — the test suite.
