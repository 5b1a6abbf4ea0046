# code_graph

The query, parsing and snapshot logic of a code graph, written in Verus: each
function states in a contract what it returns, and the contract is proved.

- `src/callee.rs`, `src/syntax.rs`: what a call expression calls, over a
  tree-sitter node or over a tree that the library holds itself.
- `src/graph.rs`: traversal of the call graph in a SQLite database, and the
  merge of callers and callees.
- `src/tools/`: the tools `ast_search`, `find_references` and `project_map`.
  Each is a sequence of steps: it reads its arguments, tells its caller what to
  look up next, and turns what was found into a reply.
- `src/snapshot/`: snapshots of an index: making one, reading what it says of
  itself, and installing one.
- `src/routing.rs`: scoring of how well a model routes questions to tools.
- `src/text.rs`, `src/decimal.rs`, `src/order.rs`, `src/db.rs`: text, numerals,
  stable sorting, and statements on a database.
- `app/`: the files, processes, clocks and JSON around the library.
- `tests/`: the library on concrete values, with real databases, archives and
  parsers.

What a database answers is not modelled: contracts name the statements that are
handed to it, their order, their parameters and the answers, and say what the
library makes of these.
