# safe_fluent

A toolkit around a fluent SQL DSL, with its logic verified by Verus:

- `tree`: a small expression language with a reduction semantics and a
  continuation-based evaluator, proved to agree.
- `ast`, `sql`: a method-chain syntax tree and a typed query builder, with
  their source text stated exactly.
- `lsp`, `server`, `syntax`, `convert`, `protocol`, `error`: the document
  bookkeeping of two SQL language servers (tree-sitter for parsing, texter
  for the text buffers of the newer one).
- `fit`: what a texter text buffer does with a content change, from its
  text and its line-break table: where the positions land in each of the
  three column encodings, and whether the change is refused, applied (with
  the new text and table) or makes the buffer panic.
- `bridge`, `ids`, `transport`, `codec`, `keyed`: a bridge that sits between
  a client and two language servers: routing, request ids, the table of
  pending requests, and the framing of protocol messages.

`src/` is the verified library. `app/` holds the programs around it: the
language servers and the bridge on their standard streams, and a small
demo that parses a Java snippet.
