# tl_fantasy

A generator of Rust crates for TDLib from its TL schema, with the schema
parser and the runtime pieces of the generated client, verified with Verus.

- `src/tl_parser`: the TL schema parser. Schema text is split into grammar
  items (groups of lines and the `---functions---` marker), and each group
  becomes a token group: name, arguments with their generic components,
  super type and descriptions.
- `src/fantasy`: what the generator decides: the type-fill table (type
  mapping, per-field overrides, extra listeners), which module file each
  type goes to, and the filters and functions that the templates call.
- `src/client`: the runtime of the generated client: the API front and what
  it logs (API id and hash masked), listeners, the event handler and the
  observer of responses. These are verified here as a library; the
  generator itself still copies and renders the client's template files, so
  a generated client does not call this code.
- `src/strmap.rs`, `src/text.rs`, `src/casing.rs`: an insertion-ordered string
  map, character-sequence helpers and identifier case conversion.
- `app/`: the command-line generator around the library: reading the
  type-fill table and the schema file, Tera templates, writing files.
