# ox_ontology

Ontology governance core with machine-checked contracts. The ontology
model (node and edge types, properties, constraints, indexes, source
mappings, rules and registries) is edited through an invertible command
set and typed admin edits; around it sit validation and registry
integrity checks, derived safety-net rules, a schema dependency index,
exchange-format export, source retraction, approval routing, the
inference-pipeline state machine, design gates, glossary and concept
vocabulary, binding-suggestion signals, content-addressed cluster
signatures and the bookkeeping of hierarchical community detection.

Every function under `src/` is verified by Verus against a
`requires` / `ensures` contract stated over mathematical models
(`Seq`, `Set`, `Map` and view types); laws that span several calls
(undo of a command, batch composition, order independence of
signatures, and so on) are public proof functions.

Layout:

- `src/` — the verified library, one module per concern; outside crates
  (`sha2`, `hex`, `uuid`) and the few standard-library calls Verus has
  no specification for (the system clock, `str::trim`,
  `str::to_lowercase`, `char::is_alphanumeric`, `String::push`) are
  reached only through small trusted wrappers whose contracts are
  documented where they stand.
- `tests/` — executable tests of the library.
- `app/` — code that stays outside verification: floating-point
  community detection and suggestion scoring, data-quality thresholds,
  duration conversions and error types with `Display`.
