# typhoondsl_outliner

The lexer and the semantic actions behind the outliner of the Typhoon DSL:
from a model or a library it extracts the outline (components, code handlers,
the configuration, with names and line/column locations) that editors show
as outline and breadcrumbs.

Layout:

- `src/` — the library, verified with Verus.
  - `text.rs`: UTF-8 byte offsets and the characters of `str`.
  - `location.rs`: positions and locations, and how a location advances over text.
  - `lexer.rs`: layout skipping and recognition of every token kind.
  - `actions.rs`: the outline types and the actions that build them.
  - `laws.rs`: properties that hold for every input.
- `tests/` — tests of the library.
- `app/` — the command line program: argument handling, reading the model
  and JSON output. It drives the LR parser that rustemo generates from the
  grammar of the outline language into `app/outliner.rs`; neither the grammar
  nor that generated file is part of this repository, so `app/` builds only
  once the parser has been generated there.
