# compiler

A compiler for a small typed language, verified with Verus.

- `src/token.rs`: the lexer, with its language given as a spec function.
- `src/ast.rs`, `src/grammar.rs`, `src/parser.rs`: the syntax tree, the
  grammar as spec functions, and the recursive-descent parser that
  type-checks declarations and calls against it.
- `src/code_gen.rs`: the code generator, which writes a program out as the
  builder instructions of an LLVM module; `src/code_order.rs` proves that
  every instruction refers only to what instructions before it made.
- `src/symbols.rs`: the name tables of the code generator, kept in
  `fxhash` maps.
- `src/arena.rs`: a bump allocator over a byte buffer.
- `src/runtime.rs`: what compiled programs call: printing and comparing C
  strings.
- `app/main.rs`: hands the instructions to LLVM through `inkwell` and runs
  the sample program with the JIT.
