# boxlang_compiler

The middle of the BoxLang compiler as a verified library.  The functions in
`src/` carry `requires`/`ensures` contracts that Verus proves, except a few
small `#[verifier::external_body]` wrappers around std and `num_cpus` (the
clock, `Arc`, leaking allocations, the CPU count, `Debug` text), whose
contracts are trusted.

- `src/ast.rs` — the part of the syntax tree that the passes read, with
  structural copies.
- `src/typeck/` — types, type classes, errors, the symbol table and the type
  checker: its builtin names, resolving written types against the symbols in
  scope, collecting the signatures of functions, structs, enums and `impl`
  blocks, and the typing rules of literals, names, operators, pipes and call
  arguments; `infer` holds type variables, the occurs check, unification and
  trait bounds.
- `src/ty/` — converting written types to the checker's types and to C names.
- `src/middle/mir/` — MIR, the lowering of functions to MIR (`builder`), and
  the optimization passes.
- `src/middle/borrowck/` — the lexical and the non-lexical borrow checkers,
  loans, moves and the orphan rule.
- `src/middle/async_transform.rs` — async functions as state machines, at the
  syntax level and at the MIR level.
- `src/module/` — module paths, loading and the dependency graph.
- `src/runtime/` — the runtime's data structures: channels, scheduler,
  memory pools and futures.
- `src/util/`, `src/ui/` — arenas, paths, text and terminal formatting.
- `app/` — what cannot be verified: terminal and file I/O, timing loops,
  error types with outside derives.
- `tests/` — the original tests and tests of the contracts.
