# expr_parse

A Pratt parser for expressions over a stream of lexed tokens, verified with
Verus.

- `src/lex.rs`: the token kinds.
- `src/helper/lex_wrap.rs`: tokens with their text and span, parse errors, and
  the `LookaheadStream` the parser reads from.
- `src/ast.rs`: the syntax tree and its model (`@`), in which vectors are
  sequences.
- `src/parse/grammar.rs`: the grammar as spec functions; `None` marks the
  inputs on which the parser stops the program.
- `src/parse.rs`: single-token helpers (`expect`, `eat_match`, ...).
- `src/parse/parse_expr.rs`: the parser. Each `try_` function runs on every
  input, returns `None` exactly where the grammar says the parser stops, and
  otherwise equates its result and final position with the grammar. The
  functions without `try_` keep the parser's signatures and exclude those
  inputs by `requires`; `can_parse_expr` tests for them beforehand.
- `src/parse/laws.rs`: properties of the grammar on all inputs (progress,
  spans, scoped names, accesses, operator grouping, monotonicity in the
  minimum binding power).
- `tests/`: runs the parser on concrete token streams.
