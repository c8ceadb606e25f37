# Dex

Lexer, parser and runtime environment of Dex, a small expression-oriented
language, verified with Verus.

- `src/token.rs`: token kinds and tokens.
- `src/lexer.rs`: the lexer, specified by `lex_from` (one lexeme at a time),
  with laws on the final `EOF`, on where each token was read and on
  source order.
- `src/literal.rs`: integer and float literal text.
- `src/ast.rs`: the syntax tree and its mathematical views.
- `src/grammar.rs`: the grammar as spec functions over token sequences.
- `src/parser.rs`: the recursive-descent parser, proved to follow the grammar,
  with error recovery at `@`, `struct` and the end of input.
- `src/interpreter.rs`: the scopes of a running program and the meaning of the
  operators on integers, truth values and strings.
- `src/evaluator.rs`: runtime values and the tree-walking evaluator
  (operators, `if`, loops, assignment, lambdas and calls, pipelines, string
  interpolation, the built-ins `print`, `filter` and `map`, and running a
  program's `main`), specified by `eval_spec` and its companions. The float
  representation and its arithmetic are supplied by the caller; a depth
  bound makes every evaluation finish.
- `app/`: the command-line program, and `f64` floats for the evaluator.
