# fe_analyzer

Semantic queries on the contracts of a smart-contract language, each with a
proved contract, together with the syntax tree's `Node` wrapper they work on.

- `src/span.rs`, `src/node.rs`: source spans, node ids handed out by a counter,
  and AST nodes.
- `src/ast.rs`: the part of the syntax tree that the queries read.
- `src/items.rs`, `src/db.rs`, `src/scope.rs`: item handles, resolved types,
  the analyzer database (modules, contracts, interned functions, events and
  fields, recorded dependency graphs) and the analysis scope of an item.
- `src/diagnostics.rs`: diagnostics and the error constructors.
- `src/name_maps.rs`: the `indexmap::IndexMap` maps from names to items, with
  the contracts of the `IndexMap` methods used.
- `src/intern.rs`: interning (equal data, one id) and its properties.
- `src/depgraph.rs`: dependency graphs.
- `src/contracts.rs`: the queries; `src/properties.rs`: properties that hold
  of them on every database.
- `app/`: serde copies of `Span` and `Node`.
