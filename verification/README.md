# c4c

c4c compiles Structurizr-style C4 workspace DSL files: it preprocesses includes and
constants, parses the model and views, validates them, and exports the views as Mermaid,
D2, PlantUML, C4-PlantUML, DOT, Draw.io, JSON, an Open Group ArchiMate exchange document
and a documentation site. It also reads native Archi models, projects them to the DSL,
keeps the native XML in a sidecar and compares native models canonically and semantically.

The library under `src/` is verified with Verus. Contracts are stated over spec functions;
many are exact, but some state only part of what a function does (the grammar behind
lexing, preprocessing and parsing, the full sets a view expansion shows, the exporters'
bodies beyond the parts their contracts fix). XML parsing is stated exactly over the events
quick-xml reads from the input, which `xml_event` names. The properties that span several functions are proof functions
(for instance in `src/laws.rs` and beside the functions they are about). Offsets in spans
are byte offsets into the source text; columns count characters.

The original's optional syntax check through a tree-sitter grammar is not part of this
build: the grammar crate is not available, so parsing relies on the hand-written parser
alone. The Archi native layout (where objects go and how connections bend) sits in
`app/archi_layout.rs`, because it tests segments against bounds in floating point; the
library writes the XML from those placements.

- `src/text.rs`, `src/chars.rs`: characters and strings.
- `src/source.rs`, `src/diagnostic.rs`: source texts, spans and rendered diagnostics.
- `src/lexer.rs`, `src/handwritten_parser.rs`, `src/parser.rs`: tokens and the workspace model.
- `src/preprocessor.rs`: `!include`, `!constant` and substitutions.
- `src/validate.rs`, `src/lookup.rs`, `src/expand.rs`, `src/view_expression.rs`: validation
  and view expansion.
- `src/mermaid.rs`, `src/exporters.rs`, `src/json.rs`, `src/inspect.rs`: exports.
- `src/documentation.rs`: documentation and decision import and the site.
- `src/xml.rs`, `src/archi_native.rs`, `src/projection.rs`, `src/semantic.rs`: native Archi models.
- `src/archi_export.rs`, `src/archi_layout.rs`: the Archi native export and the integer
  parts of its layout.
- `src/compiler.rs`, `src/merge.rs`: compilation steps and workspace extension.

`app/main.rs` is the command line program: it reads and writes files and hands the library
plain values.
