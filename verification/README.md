# lox

A tree-walking interpreter for the Lox language, with its front end
verified by Verus.

## Layout

- `src/` — the verified library.
  - `span.rs`, `model.rs`: positions, lexemes and tokens, with the spelling
    and naming of each kind of token.
  - `chars.rs`, `text.rs`: character classes and string helpers.
  - `scanner.rs`: the scanner, specified step by step (`spec_scan`).
  - `ast.rs`: syntax trees and parse errors, with their abstract values.
  - `grammar.rs`: the grammar as spec functions over the token sequence.
  - `parser.rs`: the recursive-descent parser, proved to follow the grammar;
    `Parser` and `ParserBuilder`.
  - `render.rs`: the printed forms of tokens and trees.
  - `printable.rs`: every tree the parser gives can be printed.
  - `listing.rs`: the indented listing of trees, with slots for leaves.
  - `interner.rs`: the string interner.
  - `env.rs`: variables and block scopes of a running program.
  - `ops.rs`: which operation an operator performs on values of given kinds.
- `tests/` — tests of the library.
- `app/` — the `lox` command (`tokenize`, `parse`, `evaluate`, `run`) and the
  evaluator, whose values are doubles.
