# hiori

A small expression language — `let` bindings, integer and boolean expressions,
comparisons, `if`/`else` and blocks — with every stage proved against a
mathematical model in Verus.

## Layout

- `src/text.rs` — decimal numerals, character classes, UTF-8 byte offsets.
- `src/diagnostics.rs` — spans, diagnostics, and the line and column a diagnostic points at.
- `src/token.rs`, `src/lexer.rs` — tokens and the lexer; `lex_from` specifies the
  token found at every position, and the laws state that the tokens end with
  `Eof` and that their spans lie in order within the source.
- `src/spacing.rs` — white space between tokens: adding it where a token ends
  changes no token kind and no message, and once only white space is left the
  lexer gives `Eof` at the end of the text, again and again.
- `src/ast.rs`, `src/grammar.rs`, `src/parser.rs` — the syntax tree, the grammar as
  functions over token positions (with error recovery), and the recursive-descent
  parser proved to follow it step for step.
- `src/env.rs` — scoped environments: a log of bindings cut back when a block ends.
- `src/resolver.rs`, `src/type_checker.rs`, `src/interpreter.rs` — name resolution,
  type checking and evaluation, each specified over the statement view.
- `src/soundness.rs` — a program that type checks without errors never gets stuck
  when it runs.
- `app/main.rs` — the command line: reads a file, runs the front end, prints the
  diagnostics or the syntax tree.
- `tests/` — behaviour on concrete programs.
