# cognicode_explorer

The verified core of a code explorer: the MoldQL / ExplorerQL query
language and the rules around it, written in Verus.

## Layout

- `src/` — the library, verified; three small trusted wrappers call `std`
  (`String::push`, `char::is_alphanumeric`) and the `regex` crate, each
  with its contract in a doc comment:
  - `text`, `number` — character helpers, decimal rendering, and the
    canonical text of numeric literals;
  - `moldql::cursor`, `moldql::parser`, `moldql::parser_pattern_profile` —
    the query parsers, each proved against a functional specification of
    the grammar;
  - `moldql::intent` — lowering of lowercase intent queries (the pattern
    matching is done by the `regex` crate behind one trusted wrapper);
  - `moldql::compile` — compilation of graph queries to parameterised SQL
    or typed walk plans, with the law that no user text (object
    references, values, provenance sources, field names) reaches the SQL
    text: `WHERE` on SQL tests only provenance keys and confidence, all
    bound as placeholders;
  - `moldql::compile_fixtures` — the fixture call graph and its walks;
  - `moldql::executor` — the result envelope and canonical query text;
  - `scaffold`, `registry`, `views`, `view_spec_payload` — view recipes,
    the view catalog (listings ordered by id, providers before executors)
    and wire names;
  - `session` — session state, ids and the registry of open sessions;
  - `service` — the service's decisions on plain text: named-view input
    checks, node style classes, reopening a stored named view;
  - `ports` — counts and constants shared with the storage ports.
- `tests/` — tests run against the compiled library.
- `app/` — what stays outside the proofs: the providers registered at
  build time, YAML and JSON forms, the clock, the lock around the session
  registry, and the asynchronous route port.
