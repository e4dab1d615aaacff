# esh

A compiler for the `esh` language, which targets DiamondFire code templates,
written in Verus: every function of the library carries a contract that the
verifier proves.

- `src/lexer`: string literals read from source text, with their ranges.
- `src/parser`: the recursive-descent parser from tokens to a syntax tree,
  proved to agree with the grammar in `src/parser/grammar.rs`.
- `src/codegen`: the code generator. It scans the declarations of a program
  into contexts, resolves the types of fields and returns, and writes the
  code of every function into a buffer of code, parameter and function
  definitions (`buffer.rs`), with registers handed out from a bit set
  (`bitset.rs`). The contracts fix the function headers and their order,
  calls, list reads and arithmetic, and that an expression evaluated only
  for its type writes no code; they do not give the whole code of a body.
- `src/optimizer`: takes a compiled bin apart into code lines and branches,
  and cuts function bodies after their first return.
- `src/code.rs`: the instruction and bin model shared by the generator and
  the optimizer.
- `app/`: the `esh` command line (argument handling, files, CodeClient).
- `tests/`: tests that run the compiled library.
