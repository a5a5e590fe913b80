# minilab

Three small tools whose cores are verified with Verus:

- `sensor`: the client of two TCP sensors. The library checks packet
  checksums, decodes the two packet layouts into report lines (timestamps are
  rendered with chrono), and decides each next step of the client and of the
  writer loop. The network, the threads and the file stay in `app/`.
- `cow`: an interpreter for the COW esoteric language: tokenizer, machine,
  input reading, whole runs with a step budget, and the command-line messages.
- `pascal`: a lexer, a recursive-descent parser and an evaluator for a tiny
  Pascal subset (`BEGIN ... END.`, assignments, integer expressions). Each
  step that can fail comes twice: `factor`, `interpret`, ... require input on
  which they succeed, and `try_factor`, `try_interpret`, ... take any input
  and return the error message where the step fails.

Layout:

- `src/`: the verified library. Each module states its behaviour over spec
  functions (`run_command`, `cow_run`, `lex_token`, `p_program`, `eval`, ...)
  and the executable functions are proved against them. The `laws.rs` files
  hold properties that relate several functions.
- `tests/`: tests of the library on concrete values.
- `app/`: the command-line program (`sensor`, `cow <file>`, `pascal`), with
  the I/O that the library does not do.
