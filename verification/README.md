# DAGger

DAGger tells which of the known vulnerabilities in a Rust project's
dependencies its own code can reach. It resolves the dependency graph with
`cargo metadata`, scans the project's sources for `use` and `extern crate`
declarations with tree-sitter, asks OSV.dev for advisories, weighs each
finding by PageRank centrality, and offers fixes: a version bump when OSV
lists a patched version, otherwise a mitigation suggested by a language
model (never applied automatically).

## Layout

- `src/` is the library, verified with Verus. Each public function states
  its result in its contract; the laws that relate several functions are
  public proof functions named `law_*`.
  - `ingestion`, `graph`: the dependency graph built from the resolver's
    metadata, and the reachability marks on it.
  - `syntax`: the `use`/`extern crate` scan over a tree-sitter parse.
  - `osv`: reading advisory records (base severity, lowest patched
    version above the resolved one, which advisories to fetch).
  - `tree_view`: the dependency tree as `cargo tree` prints it.
  - `remediation`, `manifest`, `groq`: the two tiers of fixes, and editing
    `Cargo.toml` in place with `toml_edit`.
  - `dashboard`, `chat`: the interactive dashboard's state machine and the
    chat's system prompt.
  - `ansi_art`: the SGR reader for the splash logo.
  - `models`, `text`: shared data and string helpers.
- `app/` is the command around it: argument parsing, `cargo metadata`,
  the file walk, HTTP, the terminal UI, and the floating-point parts
  (PageRank, risk scores and their ordering).
- `tests/` runs the library on concrete inputs.
