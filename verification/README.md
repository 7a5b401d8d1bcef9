# lox

Front ends and runtimes for the Lox language, with their logic verified by
Verus.

## Layout

- `src/` — the verified library.
  - `text.rs`: character-level helpers (search, trimming, lines, decimals).
  - `token.rs`, `lexer.rs`: tokens and the scanner, specified by `scan_from`.
  - `ast.rs`, `parser_spec.rs`, `parser.rs`: the syntax tree, the grammar as
    spec functions, and the recursive-descent parser proved equal to it;
    `parser_laws.rs` proves that every expression of a parse has an id of its
    own.
  - `resolver.rs`: static resolution (scopes, variable depths, compile-time
    errors) under the compiler's or the interpreter's rules.
  - `environment.rs`: the store of environments that variables live in.
  - `driver.rs`: the front end as a whole (scan, parse, resolve) and its
    error reports.
  - `codegen.rs`, `runtime.rs`: the lowering of programs to stack code for the
    LLVM back end, and the tagged values that compiled code handles.
  - `chunk.rs`: bytecode chunks and the bytecode machine.
  - `test_runner.rs`: reading the annotations of test scripts and judging a
    run against them.
  - `ast_printer.rs`, `native.rs`: small pieces of the interpreter.
- `app/` — the command line (`jlox`, `llox`, `llox-jit`, `test-runner`), the
  tree-walk evaluator (its values hold `f64`), the LLVM emission through
  inkwell, and the C runtime functions.
- `tests/` — tests of the library.
