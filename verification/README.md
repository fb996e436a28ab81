# teckel

Parser and domain model for Teckel, a declarative YAML language for data pipelines, written
in Verus: the logic of the library is proved against its contracts.

A YAML text goes through variable substitution, secret resolution, YAML parsing, a version
check, the rewrite into the domain model (the asset context and the pipeline-level sections),
semantic validation (V-001 to V-008), optional expression validation, and tag propagation
through the dependency graph.

## Layout

- `src/` — the verified library.
  - `text`, `error`, `types`: strings, the error catalog, names and enumerations.
  - `expr`, `expr_grammar`, `expr_parser`: the expression language, its grammar as spec
    functions, and a parser proved to accept exactly that grammar.
  - `source`, `asset`: sources of assets, assets, and the context (a map kept sorted by name).
  - `document`, `quality_yaml`: the shape of a document as written.
  - `rewrite`, `sections`, `suites`: the rewrite of a document into the domain model.
  - `validate`: semantic and expression validation.
  - `graph`, `dag`: the dependency graph (topological order from petgraph), execution plans
    and tag propagation.
  - `variables`, `secrets`, `yaml_value`: substitution of `${VAR}` and `{{secrets.alias}}`
    placeholders, and deep merging of YAML values.
  - `pipeline`, `quality`: the parsed pipeline and its data quality suites.
- `app/` — the I/O edge: serde's derives on copies of the document types, YAML parsing,
  environment variables, and the `parse` entry points.
- `tests/` — tests of the library.
