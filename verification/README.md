# latte

A compiler of Latte (a small Java-like language) to LLVM IR, written in Verus: the
library in `src/` is verified, and the command line program in `app/` reads a source
file, writes its LLVM IR next to it and links it with the runtime using the LLVM tools.

## Layout

- `src/frontend`: the front end.
  - `parser/lexer.rs`: tokens with byte offsets; `lexes` states how each token is written
    in the source.
  - `parser/syntax.rs`: the grammar as relations between spans of tokens and syntax trees;
    `parser/grammar.rs` is a recursive descent parser whose results are derived by it.
  - `preprocessor`: folding of constant conditions and organization of blocks so that
    every path of every function ends with a return.
  - `typechecker`: types of every node, references to class members made explicit, and
    the checks on declarations, calls and the function `main`.
  - `mod.rs`: the whole pipeline (`check_code`, `process_code`) and what it guarantees of
    the programs it accepts (`frontend_checked`); error locations come from the codemap
    crate.
- `src/backend`: the intermediate representation (`ir.rs`), its LLVM text (`display.rs`),
  basic blocks with phi instructions (`builder.rs`), compilation contexts (`context`) and
  the compilers of functions, classes and programs (`compiler`).
- `src/util`: environments, text helpers and the syntax tree mapper trait.
- `tests/`: tests of the library.
- `app/`: the command line program.
