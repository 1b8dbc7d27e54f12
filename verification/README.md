# sql_select

A verified parser for the `SELECT` statement of a MySQL-like SQL dialect,
written in Verus.

The parser reads a sequence of tokens, each with its source span, and builds
a syntax tree that keeps the spans of the tokens it came from. Every parsing
function is proved to return exactly what a functional specification of the
grammar gives, to leave the cursor where that specification says, and never
to move it backwards or past the end of the tokens.

Layout of `src/`:

- `span.rs`: source spans and joining them.
- `keywords.rs`: the keywords, and which of them are reserved.
- `token.rs`: the tokens.
- `parser.rs`: the token cursor, its primitive operations, parse errors, and
  the specification of comma separated lists.
- `expression.rs`: expressions, their grammar and parser.
- `select.rs`: the `SELECT` statement, its table references and joins, their
  grammar, parser and well-formedness.

The library does not include a tokenizer; `tests/select.rs` holds a small one
for the tests.
