# parser_v2

Upgrade and safety analysis of Solana (Anchor) programs, verified with Verus.

The library (`src/`) holds the analyses, each with a contract over a
mathematical model:

- `types`, `workspace`: the registry of struct, enum, alias and instruction
  definitions of a program, keyed by absolute path, and name resolution.
- `layout`, `abi`: serialized account sizes and content fingerprints
  (SHA-256, hex) of registered types; `diff`: the classified differences
  between two versions of a workspace, their report and the deployment
  recommendation; `report_order`:
  that report does not depend on the order of the differences.
- `source`, `cfg`, `ssa`: handler bodies as parsed statements, their
  control-flow graph, and SSA versions of local names with inferred types.
- `guards`: security facts taken from `#[account(...)]` attributes and from
  checks in handler bodies; `rules`, `owner_rule`, `cpi_rule`: the rule
  engine and the owner-validation (EPIC-SEC-001) and arbitrary-CPI-target
  (EPIC-SEC-005) rules; `audit`: handler discovery in a file's text and the
  per-handler run.
- `spike`: the plain account/alias listing of a set of sources.
- `syntax`: the calls into `syn` that parse source text, expressions and
  attribute lists, each converting syn's tree one for one into the library's
  own source types (token texts as `quote` prints them; the analyses remove
  spaces themselves); `files`: what the registry and the audit take from a
  parsed file.

`app/` is the command line program: it walks directories, reads files, hands
the library their text and prints JSON and reports.
